//! The rows an import writes, the options of the browsing query, and the
//! catalog's tables.

use crate::mods::Category;
use crate::mods::Mod;
use crate::mods::ModView;
use crate::mods::Rating;
use crate::services::users::User;
use crate::services::users::UserNoId;
use crate::tables::catalog_links;
use crate::tables::import_in_chunks_is_import;
use crate::tables::lemma_new_names_follow;
use crate::tables::lemma_new_names_grow;
use crate::tables::lemma_rated_grows;
use crate::tables::lemma_upsert_one;
use crate::tables::RatingRecord;
use crate::tables::Tables;
use crate::tables::upsert_all;
use crate::tables::UserRecord;
use crate::tables::with_new_names;
use crate::text::holds_text;
use crate::text::same_text;
use crate::text::texts_of;
use crate::timestamps::CalendarDate;
use crate::timestamps::Timestamp;
use vstd::prelude::*;

verus! {

/// A mod as an import writes it: every column of its row, and the
/// identifiers of its categories.
#[derive(Debug)]
pub struct InsertMod {
    /// The mod's UUID, as its 128-bit value.
    pub uuid4: u128,
    pub name: String,
    pub description: String,
    pub icon_url: String,
    pub full_name: String,
    pub owner: String,
    pub package_url: String,
    pub updated_date: CalendarDate,
    pub rating: i64,
    pub is_deprecated: bool,
    pub has_nsfw_content: bool,
    /// The categories' identifiers; none occurs twice.
    pub category_ids: Vec<i32>,
}

/// One row of the mod table, as mathematical values.
pub struct ModRecord {
    pub id: u128,
    pub name: Seq<char>,
    pub description: Seq<char>,
    pub icon_url: Seq<char>,
    pub full_name: Seq<char>,
    pub owner: Seq<char>,
    pub package_url: Seq<char>,
    pub updated_date: CalendarDate,
    pub rating: i64,
    pub deprecated: bool,
    pub nsfw: bool,
}

/// What an `InsertMod` holds: the row and the category identifiers.
pub struct InsertModView {
    pub record: ModRecord,
    pub category_ids: Seq<i32>,
}

impl View for InsertMod {
    type V = InsertModView;

    open spec fn view(&self) -> InsertModView {
        InsertModView {
            record: ModRecord {
                id: self.uuid4,
                name: self.name@,
                description: self.description@,
                icon_url: self.icon_url@,
                full_name: self.full_name@,
                owner: self.owner@,
                package_url: self.package_url@,
                updated_date: self.updated_date,
                rating: self.rating,
                deprecated: self.is_deprecated,
                nsfw: self.has_nsfw_content,
            },
            category_ids: self.category_ids@,
        }
    }
}

/// The views of `mods`, in order.
pub open spec fn insert_views(mods: Seq<InsertMod>) -> Seq<InsertModView> {
    mods.map_values(|m: InsertMod| m@)
}

/// What the browsing query leaves out, and how many mods it hands out.
#[derive(Debug)]
pub struct ModQueryOptions {
    /// Mods in any of these categories are left out.
    pub ignored_categories: Vec<String>,
    /// At most this many mods are handed out.
    pub limit: i32,
    pub include_deprecated: bool,
    pub include_nsfw: bool,
}

impl Default for ModQueryOptions {
    fn default() -> (options: ModQueryOptions)
        ensures
            options.ignored_categories@.len() == 0,
            options.limit == 20,
            !options.include_deprecated,
            !options.include_nsfw,
    {
        ModQueryOptions {
            ignored_categories: Vec::new(),
            limit: 20,
            include_deprecated: false,
            include_nsfw: false,
        }
    }
}

/// Why the store refuses an operation.
#[derive(Debug, Clone, Copy, PartialEq, Eq, Structural)]
pub enum StoreError {
    /// A query asks for fewer than zero rows.
    NegativeLimit,
    /// There is a user of that name already.
    UsernameTaken,
    /// The table has no identifier left for a new row.
    OutOfIdentifiers,
}

/// One row of the mod table.
struct ModRow {
    id: u128,
    name: String,
    description: String,
    icon_url: String,
    full_name: String,
    owner: String,
    package_url: String,
    updated_date: CalendarDate,
    rating: i64,
    deprecated: bool,
    nsfw: bool,
}

impl ModRow {
    spec fn record(&self) -> ModRecord {
        ModRecord {
            id: self.id,
            name: self.name@,
            description: self.description@,
            icon_url: self.icon_url@,
            full_name: self.full_name@,
            owner: self.owner@,
            package_url: self.package_url@,
            updated_date: self.updated_date,
            rating: self.rating,
            deprecated: self.deprecated,
            nsfw: self.nsfw,
        }
    }

    fn from_insert(m: &InsertMod) -> (row: ModRow)
        ensures
            row.record() == m@.record,
    {
        ModRow {
            id: m.uuid4,
            name: m.name.clone(),
            description: m.description.clone(),
            icon_url: m.icon_url.clone(),
            full_name: m.full_name.clone(),
            owner: m.owner.clone(),
            package_url: m.package_url.clone(),
            updated_date: m.updated_date,
            rating: m.rating,
            deprecated: m.is_deprecated,
            nsfw: m.has_nsfw_content,
        }
    }
}

/// Whether no identifier occurs in two rows.
spec fn distinct_ids(rows: Seq<ModRow>) -> bool {
    forall|i: int, j: int| 0 <= i < j < rows.len() ==> rows[i].id != rows[j].id
}

/// Whether some row has the identifier `id`.
spec fn has_row(rows: Seq<ModRow>, id: u128) -> bool {
    exists|i: int| 0 <= i < rows.len() && #[trigger] rows[i].id == id
}

/// The place of a row with the identifier `id`.
spec fn row_index(rows: Seq<ModRow>, id: u128) -> int {
    choose|i: int| 0 <= i < rows.len() && #[trigger] rows[i].id == id
}

/// The rows by identifier.
spec fn rows_map(rows: Seq<ModRow>) -> Map<u128, ModRecord> {
    Map::new(|id: u128| has_row(rows, id), |id: u128| rows[row_index(rows, id)].record())
}

/// The map of the rows holds row `i` under its identifier.
proof fn lemma_rows_map_at(rows: Seq<ModRow>, i: int)
    requires
        distinct_ids(rows),
        0 <= i < rows.len(),
    ensures
        rows_map(rows).contains_key(rows[i].id),
        rows_map(rows)[rows[i].id] == rows[i].record(),
        row_index(rows, rows[i].id) == i,
{
    assert(has_row(rows, rows[i].id));
    let j = row_index(rows, rows[i].id);
    assert(0 <= j < rows.len() && rows[j].id == rows[i].id);
    if j < i {
        assert(rows[j].id != rows[i].id);
    } else if i < j {
        assert(rows[i].id != rows[j].id);
    }
}

/// Writing a row over the row with its identifier is an insert into the
/// map of the rows.
proof fn lemma_rows_map_update(rows: Seq<ModRow>, j: int, row: ModRow)
    requires
        distinct_ids(rows),
        0 <= j < rows.len(),
        rows[j].id == row.id,
    ensures
        distinct_ids(rows.update(j, row)),
        rows_map(rows.update(j, row)) == rows_map(rows).insert(row.id, row.record()),
{
    let after = rows.update(j, row);
    assert(distinct_ids(after)) by {
        assert forall|a: int, b: int| 0 <= a < b < after.len() implies after[a].id != after[b].id by {
            assert(rows[a].id != rows[b].id);
        }
    }
    let expected = rows_map(rows).insert(row.id, row.record());
    assert forall|id: u128| rows_map(after).contains_key(id) == expected.contains_key(id) by {
        if has_row(after, id) {
            let i = row_index(after, id);
            assert(rows[i].id == id);
        }
        if has_row(rows, id) {
            let i = row_index(rows, id);
            assert(after[i].id == id);
        }
        if id == row.id {
            assert(after[j].id == id);
        }
    }
    assert forall|id: u128| rows_map(after).contains_key(id) implies rows_map(after)[id]
        == expected[id] by {
        let i = row_index(after, id);
        lemma_rows_map_at(after, i);
        if id != row.id {
            assert(rows[i].id == id);
            lemma_rows_map_at(rows, i);
        }
    }
    assert(rows_map(after) =~= expected);
}

/// Adding a row with a new identifier is an insert into the map of the rows.
proof fn lemma_rows_map_push(rows: Seq<ModRow>, row: ModRow)
    requires
        distinct_ids(rows),
        !has_row(rows, row.id),
    ensures
        distinct_ids(rows.push(row)),
        rows_map(rows.push(row)) == rows_map(rows).insert(row.id, row.record()),
{
    let after = rows.push(row);
    assert(distinct_ids(after)) by {
        assert forall|a: int, b: int| 0 <= a < b < after.len() implies after[a].id != after[b].id by {
            if b == rows.len() {
                assert(rows[a].id != row.id);
            } else {
                assert(rows[a].id != rows[b].id);
            }
        }
    }
    let expected = rows_map(rows).insert(row.id, row.record());
    assert forall|id: u128| rows_map(after).contains_key(id) == expected.contains_key(id) by {
        if has_row(after, id) {
            let i = row_index(after, id);
            if i < rows.len() {
                assert(rows[i].id == id);
            }
        }
        if has_row(rows, id) {
            let i = row_index(rows, id);
            assert(after[i].id == id);
        }
        if id == row.id {
            assert(after[rows.len() as int].id == id);
        }
    }
    assert forall|id: u128| rows_map(after).contains_key(id) implies rows_map(after)[id]
        == expected[id] by {
        let i = row_index(after, id);
        lemma_rows_map_at(after, i);
        if id != row.id {
            assert(rows[i].id == id);
            lemma_rows_map_at(rows, i);
        }
    }
    assert(rows_map(after) =~= expected);
}

/// The key of the date of update of row `r`.
spec fn date_key(rows: Seq<ModRow>, r: int) -> int {
    rows[r].updated_date.key()
}

/// What `Seq::insert` leaves at each place.
proof fn lemma_insert_places(order: Seq<usize>, at: int, item: usize)
    requires
        0 <= at <= order.len(),
    ensures
        order.insert(at, item).len() == order.len() + 1,
        order.insert(at, item)[at] == item,
        forall|k: int| 0 <= k < at ==> #[trigger] order.insert(at, item)[k] == order[k],
        forall|k: int|
            at < k <= order.len() ==> #[trigger] order.insert(at, item)[k] == order[k - 1],
{
}

/// The users as the tables hold them.
spec fn user_records(users: Seq<User>) -> Seq<UserRecord> {
    users.map_values(
        |user: User|
            UserRecord {
                username: user.username@,
                password_hash: user.password_hash@,
                has_import_privileges: user.has_import_privileges,
            },
    )
}

/// The views of `mods`, in order.
pub open spec fn mod_views(mods: Seq<Mod>) -> Seq<ModView> {
    mods.map_values(|m: Mod| m@)
}

/// The catalog's tables, held in memory: what each operation of the store
/// does to them, and what each query answers. A store in Postgres is sent,
/// for each operation, the statement that `statements` has for it.
pub struct Database {
    mods: Vec<ModRow>,
    categories: Vec<String>,
    links: Vec<(u128, i32)>,
    import_date: Option<Timestamp>,
    ratings: Vec<RatingRecord>,
    users: Vec<User>,
}

impl View for Database {
    type V = Tables;

    closed spec fn view(&self) -> Tables {
        Tables {
            mods: rows_map(self.mods@),
            categories: texts_of(self.categories@),
            links: self.links@.to_set(),
            import_date: self.import_date,
            ratings: self.ratings@,
            users: user_records(self.users@),
        }
    }
}

impl Database {
    /// What holds of every store: no identifier occurs in two rows of the mod
    /// table, no name in two categories or two users, and the identifiers of
    /// categories and users are their places in the tables.
    pub closed spec fn wf(&self) -> bool {
        &&& distinct_ids(self.mods@)
        &&& texts_of(self.categories@).no_duplicates()
        &&& self.categories@.len() <= i32::MAX
        &&& self.users@.len() <= i32::MAX
        &&& forall|i: int| 0 <= i < self.users@.len() ==> (#[trigger] self.users@[i]).id == i + 1
        &&& forall|i: int, j: int|
            0 <= i < j < self.users@.len() ==> (#[trigger] self.users@[i]).username@ != (
            #[trigger] self.users@[j]).username@
    }

    /// The tables of a store are valid.
    pub proof fn lemma_valid(&self)
        requires
            self.wf(),
        ensures
            self@.valid(),
    {
        assert forall|i: int, j: int| 0 <= i < j < self@.users.len() implies (
        #[trigger] self@.users[i]).username != (#[trigger] self@.users[j]).username by {
            assert(self.users@[i].username@ != self.users@[j].username@);
        }
        let ids = self.mods@.map_values(|row: ModRow| row.id);
        vstd::seq_lib::seq_to_set_is_finite(ids);
        assert forall|id: u128| self@.mods.dom().contains(id) <==> ids.to_set().contains(id) by {
            if has_row(self.mods@, id) {
                let i = row_index(self.mods@, id);
                assert(ids[i] == id);
            }
            if ids.contains(id) {
                let i = choose|i: int| 0 <= i < ids.len() && ids[i] == id;
                assert(self.mods@[i].id == id);
            }
        }
        assert(self@.mods.dom() =~= ids.to_set());
    }

    /// A store that holds nothing.
    pub fn new() -> (db: Database)
        ensures
            db.wf(),
            db@ == Tables::empty(),
    {
        let db = Database {
            mods: Vec::new(),
            categories: Vec::new(),
            links: Vec::new(),
            import_date: None,
            ratings: Vec::new(),
            users: Vec::new(),
        };
        proof {
            assert(rows_map(db.mods@) =~= Map::<u128, ModRecord>::empty());
            assert(texts_of(db.categories@) =~= Seq::<Seq<char>>::empty());
            assert(db.links@.to_set() =~= Set::<(u128, i32)>::empty());
            assert(user_records(db.users@) =~= Seq::<UserRecord>::empty());
        }
        db
    }

    /// The instant of the last import, if there was one. In SQL:
    /// `SELECT_IMPORT_DATE`.
    pub fn latest_mod_import_date(&self) -> (date: Option<Timestamp>)
        requires
            self.wf(),
        ensures
            date == self@.import_date,
    {
        self.import_date
    }

    /// Records the instant of an import, in place of the one recorded before.
    /// In SQL: `SET_IMPORT_DATE`.
    pub fn set_mods_imported_date(&mut self, date: Timestamp)
        requires
            old(self).wf(),
        ensures
            final(self).wf(),
            final(self)@ == old(self)@.with_import_date(date),
    {
        self.import_date = Some(date);
    }

    /// Records a rating, whether or not the user has rated the mod before.
    /// In SQL: `INSERT_RATING`.
    pub fn insert_mod_rating(&mut self, mod_id: u128, rating: Rating, user_id: i32)
        requires
            old(self).wf(),
        ensures
            final(self).wf(),
            final(self)@ == old(self)@.with_rating(RatingRecord { user_id, mod_id, rating }),
    {
        self.ratings.push(RatingRecord { user_id, mod_id, rating });
    }

    /// The categories, each with its identifier, in the order of the
    /// identifiers. In SQL: `SELECT_CATEGORIES`.
    pub fn get_categories(&self) -> (categories: Vec<Category>)
        requires
            self.wf(),
        ensures
            categories@.len() == self@.categories.len(),
            forall|i: int|
                0 <= i < categories@.len() ==> (#[trigger] categories@[i]).name@
                    == self@.categories[i] && categories@[i].id == i + 1,
    {
        let mut categories: Vec<Category> = Vec::new();
        let mut i: usize = 0;
        while i < self.categories.len()
            invariant
                i <= self.categories@.len() <= i32::MAX,
                categories@.len() == i,
                forall|k: int|
                    0 <= k < i ==> (#[trigger] categories@[k]).name@ == self.categories@[k]@
                        && categories@[k].id == k + 1,
            decreases self.categories@.len() - i,
        {
            categories.push(Category { name: self.categories[i].clone(), id: (i + 1) as i32 });
            i += 1;
        }
        categories
    }

    /// Adds the categories of the given names; a name that is there already
    /// changes nothing. Refused, with nothing changed, where the new names
    /// are more than the table has identifiers left. In SQL:
    /// `insert_categories_statement`.
    pub fn insert_categories(&mut self, categories: &Vec<String>) -> (done: Result<(), StoreError>)
        requires
            old(self).wf(),
        ensures
            final(self).wf(),
            done is Err <==> old(self)@.with_categories(texts_of(categories@)).categories.len()
                > i32::MAX,
            done matches Err(e) ==> e == StoreError::OutOfIdentifiers && final(self)@ == old(
                self,
            )@,
            done is Ok ==> final(self)@ == old(self)@.with_categories(texts_of(categories@)),
    {
        let ghost before = texts_of(self.categories@);
        let ghost names = texts_of(categories@);
        let kept: usize = self.categories.len();
        proof {
            assert(names.take(0) =~= Seq::<Seq<char>>::empty());
        }
        let mut i: usize = 0;
        while i < categories.len()
            invariant
                i <= categories@.len(),
                names == texts_of(categories@),
                before == texts_of(old(self).categories@),
                before.no_duplicates(),
                kept == before.len(),
                texts_of(self.categories@).no_duplicates(),
                texts_of(self.categories@) == with_new_names(before, names.take(i as int)),
                self.categories@.len() <= i32::MAX,
                self.mods == old(self).mods,
                self.links == old(self).links,
                self.import_date == old(self).import_date,
                self.ratings == old(self).ratings,
                self.users == old(self).users,
                distinct_ids(self.mods@),
                self.users@.len() <= i32::MAX,
                forall|i: int|
                    0 <= i < self.users@.len() ==> (#[trigger] self.users@[i]).id == i + 1,
                forall|i: int, j: int|
                    0 <= i < j < self.users@.len() ==> (#[trigger] self.users@[i]).username@ != (
                    #[trigger] self.users@[j]).username@,
            decreases categories@.len() - i,
        {
            proof {
                assert(names.take(i + 1).drop_last() == names.take(i as int));
                assert(names.take(i + 1).last() == categories@[i as int]@);
            }
            if !holds_text(&self.categories, categories[i].as_str()) {
                if self.categories.len() >= 0x7fff_ffff {
                    let ghost held = self.categories@;
                    proof {
                        lemma_new_names_follow(before, names.take(i as int));
                        lemma_new_names_grow(before, names, i + 1);
                    }
                    self.categories.truncate(kept);
                    proof {
                        assert(kept <= held.len());
                        assert(self.categories@ =~= held.subrange(0, kept as int));
                        assert forall|j: int| 0 <= j < kept implies texts_of(self.categories@)[j]
                            == before[j] by {
                            assert(texts_of(held)[j] == before[j]);
                        }
                        assert(texts_of(self.categories@) =~= before);
                    }
                    return Err(StoreError::OutOfIdentifiers);
                }
                let ghost held = self.categories@;
                let name = categories[i].clone();
                proof {
                    let pushed = texts_of(held).push(name@);
                    assert(texts_of(held.push(name)) =~= pushed);
                    assert(pushed.no_duplicates()) by {
                        assert forall|a: int, b: int|
                            0 <= a < pushed.len() && 0 <= b < pushed.len() && a != b implies pushed[a]
                            != pushed[b] by {
                            if a == held.len() {
                                assert(texts_of(held)[b] != name@);
                            } else if b == held.len() {
                                assert(texts_of(held)[a] != name@);
                            }
                        }
                    }
                }
                self.categories.push(name);
            }
            i += 1;
        }
        proof {
            assert(names.take(i as int) == names);
        }
        Ok(())
    }

    /// The place of the row with the identifier `id`, if there is one.
    fn find_row(&self, id: u128) -> (place: Option<usize>)
        requires
            self.wf(),
        ensures
            match place {
                Some(i) => i < self.mods@.len() && self.mods@[i as int].id == id,
                None => !has_row(self.mods@, id),
            },
    {
        let mut i: usize = 0;
        while i < self.mods.len()
            invariant
                i <= self.mods@.len(),
                forall|k: int| 0 <= k < i ==> self.mods@[k].id != id,
            decreases self.mods@.len() - i,
        {
            if self.mods[i].id == id {
                return Some(i);
            }
            i += 1;
        }
        None
    }

    /// Writes one row: over the row with its identifier, or as a new row.
    fn upsert_row(&mut self, m: &InsertMod)
        requires
            old(self).wf(),
        ensures
            final(self).wf(),
            final(self)@ == old(self)@.with_mods(seq![m@]),
    {
        let row = ModRow::from_insert(m);
        let place = self.find_row(m.uuid4);
        proof {
            lemma_upsert_one(self@.mods, m@);
        }
        match place {
            Some(i) => {
                proof {
                    lemma_rows_map_update(self.mods@, i as int, row);
                }
                self.mods.set(i, row);
            },
            None => {
                proof {
                    lemma_rows_map_push(self.mods@, row);
                }
                self.mods.push(row);
            },
        }
    }

    /// Writes the rows from index `start` up to `end`, one after the other.
    fn insert_mods_data(&mut self, mods: &Vec<InsertMod>, start: usize, end: usize)
        requires
            old(self).wf(),
            start <= end <= mods@.len(),
        ensures
            final(self).wf(),
            final(self)@ == old(self)@.with_mods(
                insert_views(mods@).subrange(start as int, end as int),
            ),
    {
        let ghost views = insert_views(mods@);
        proof {
            assert(views.subrange(start as int, start as int) =~= Seq::<InsertModView>::empty());
            assert(self@.with_mods(Seq::<InsertModView>::empty()) =~= self@);
        }
        let mut i: usize = start;
        while i < end
            invariant
                start <= i <= end <= mods@.len(),
                views == insert_views(mods@),
                self.wf(),
                self@ == old(self)@.with_mods(views.subrange(start as int, i as int)),
            decreases end - i,
        {
            let ghost before = self@;
            self.upsert_row(&mods[i]);
            proof {
                let done = views.subrange(start as int, i as int);
                let next = views.subrange(start as int, i + 1);
                assert(next.drop_last() =~= done);
                assert(next.last() == mods@[i as int]@);
                lemma_upsert_one(before.mods, mods@[i as int]@);
                assert(self@ =~= old(self)@.with_mods(next));
            }
            i += 1;
        }
    }

    /// Adds the links from index `start` up to `end`; a link that is there
    /// already changes nothing.
    fn insert_mod_category_junction_data(
        &mut self,
        links: &Vec<(u128, i32)>,
        start: usize,
        end: usize,
    )
        requires
            old(self).wf(),
            start <= end <= links@.len(),
        ensures
            final(self).wf(),
            final(self)@ == old(self)@.with_links(links@.subrange(start as int, end as int)),
    {
        proof {
            assert(links@.subrange(start as int, start as int) =~= Seq::<(u128, i32)>::empty());
            assert(self@.with_links(Seq::<(u128, i32)>::empty()) =~= self@);
        }
        let mut i: usize = start;
        while i < end
            invariant
                start <= i <= end <= links@.len(),
                self.wf(),
                self@ == old(self)@.with_links(links@.subrange(start as int, i as int)),
            decreases end - i,
        {
            let ghost held = self.links@;
            let ghost done = links@.subrange(start as int, i as int);
            let ghost next = links@.subrange(start as int, i + 1);
            self.links.push(links[i]);
            proof {
                assert(next =~= done.push(links@[i as int]));
                held.lemma_push_to_set_commute(links@[i as int]);
                done.lemma_push_to_set_commute(links@[i as int]);
                assert(held.to_set() == old(self)@.links.union(done.to_set()));
                assert(self@.links =~= old(self)@.links.union(next.to_set()));
                assert(self@ =~= old(self)@.with_links(next));
            }
            i += 1;
        }
    }

    /// Removes every link between mods and categories.
    fn clear_categories_junction_table(&mut self)
        requires
            old(self).wf(),
        ensures
            final(self).wf(),
            final(self)@ == old(self)@.without_links(),
    {
        self.links = Vec::new();
        proof {
            assert(self.links@.to_set() =~= Set::<(u128, i32)>::empty());
        }
    }

    /// Imports a catalog: removes every link, writes the rows in chunks of
    /// `chunk_size`, and adds the links that the rows ask for, in chunks of
    /// `chunk_size` too. What is left does not depend on the size of the
    /// chunks. In SQL: `insert_mods_statements`.
    pub fn insert_mods(&mut self, mods: &Vec<InsertMod>, chunk_size: usize)
        requires
            old(self).wf(),
            chunk_size > 0,
        ensures
            final(self).wf(),
            final(self)@ == old(self)@.imported_in_chunks(insert_views(mods@), chunk_size as nat),
            final(self)@ == old(self)@.imported(insert_views(mods@)),
    {
        let ghost views = insert_views(mods@);
        let ghost size = chunk_size as nat;
        self.clear_categories_junction_table();
        let ghost cleared = self@;
        let mut from: usize = 0;
        while from < mods.len()
            invariant
                from <= mods@.len(),
                chunk_size > 0,
                size == chunk_size as nat,
                views == insert_views(mods@),
                self.wf(),
                self@.with_mods_in_chunks(views, from as nat, size) == cleared.with_mods_in_chunks(
                    views,
                    0,
                    size,
                ),
            decreases mods@.len() - from,
        {
            let to: usize = if mods.len() - from <= chunk_size {
                mods.len()
            } else {
                from + chunk_size
            };
            self.insert_mods_data(mods, from, to);
            from = to;
        }
        let links = mod_category_links(mods);
        let ghost written = self@;
        let mut at: usize = 0;
        while at < links.len()
            invariant
                at <= links@.len(),
                chunk_size > 0,
                size == chunk_size as nat,
                self.wf(),
                self@.with_links_in_chunks(links@, at as nat, size) == written.with_links_in_chunks(
                    links@,
                    0,
                    size,
                ),
            decreases links@.len() - at,
        {
            let to: usize = if links.len() - at <= chunk_size {
                links.len()
            } else {
                at + chunk_size
            };
            self.insert_mod_category_junction_data(&links, at, to);
            at = to;
        }
        proof {
            import_in_chunks_is_import(old(self)@, views, size);
        }
    }

    /// Whether there is a user called `name`, and where.
    fn find_user_row(&self, name: &str) -> (place: Option<usize>)
        requires
            self.wf(),
        ensures
            match place {
                Some(i) => i < self.users@.len() && self.users@[i as int].username@ == name@,
                None => !self@.has_user(name@),
            },
    {
        let mut i: usize = 0;
        while i < self.users.len()
            invariant
                i <= self.users@.len(),
                forall|k: int| 0 <= k < i ==> self.users@[k].username@ != name@,
            decreases self.users@.len() - i,
        {
            if same_text(self.users[i].username.as_str(), name) {
                return Some(i);
            }
            i += 1;
        }
        proof {
            if self@.has_user(name@) {
                let k = choose|k: int|
                    0 <= k < self@.users.len() && (#[trigger] self@.users[k]).username == name@;
                assert(self.users@[k].username@ == name@);
            }
        }
        None
    }

    /// Adds a user, without the privilege to import. Refused, with nothing
    /// changed, where the name is taken or no identifier is left. In SQL:
    /// `INSERT_USER`.
    pub fn insert_user(&mut self, user: &UserNoId) -> (done: Result<(), StoreError>)
        requires
            old(self).wf(),
        ensures
            final(self).wf(),
            done == if old(self)@.has_user(user.username@) {
                Err::<(), StoreError>(StoreError::UsernameTaken)
            } else if old(self)@.users.len() >= i32::MAX {
                Err::<(), StoreError>(StoreError::OutOfIdentifiers)
            } else {
                Ok::<(), StoreError>(())
            },
            done is Err ==> final(self)@ == old(self)@,
            done is Ok ==> final(self)@ == old(self)@.with_user(
                user.username@,
                user.password_hash@,
            ),
    {
        match self.find_user_row(user.username.as_str()) {
            Some(i) => {
                proof {
                    assert(self@.users[i as int].username == user.username@);
                }
                return Err(StoreError::UsernameTaken);
            },
            None => {},
        }
        if self.users.len() >= 0x7fff_ffff {
            return Err(StoreError::OutOfIdentifiers);
        }
        let id: i32 = (self.users.len() + 1) as i32;
        let row = User {
            id,
            username: user.username.clone(),
            password_hash: user.password_hash.clone(),
            has_import_privileges: false,
        };
        let ghost before = self.users@;
        self.users.push(row);
        proof {
            assert forall|i: int, j: int| 0 <= i < j < self.users@.len() implies (
            #[trigger] self.users@[i]).username@ != (#[trigger] self.users@[j]).username@ by {
                if j == before.len() {
                    assert(old(self)@.users[i].username == before[i].username@);
                } else {
                    assert(before[i].username@ != before[j].username@);
                }
            }
            assert(user_records(self.users@) =~= user_records(before).push(
                UserRecord {
                    username: user.username@,
                    password_hash: user.password_hash@,
                    has_import_privileges: false,
                },
            ));
        }
        Ok(())
    }

    /// The user with the identifier `id`, if there is one. In SQL:
    /// `FIND_USER_BY_ID`.
    pub fn find_user_by_id(&self, id: i32) -> (user: Option<User>)
        requires
            self.wf(),
        ensures
            user is Some <==> 1 <= id <= self@.users.len(),
            user matches Some(u) ==> u.id == id && self@.users[id - 1].username == u.username@
                && self@.users[id - 1].password_hash == u.password_hash@ && self@.users[id
                - 1].has_import_privileges == u.has_import_privileges,
    {
        if id < 1 || id as usize > self.users.len() {
            return None;
        }
        Some(self.users[(id - 1) as usize].clone())
    }

    /// The user called `name`, if there is one. In SQL: `FIND_USER`.
    pub fn find_user(&self, name: &str) -> (user: Option<User>)
        requires
            self.wf(),
        ensures
            user is Some <==> self@.has_user(name@),
            user matches Some(u) ==> u.username@ == name@ && 1 <= u.id <= self@.users.len()
                && self@.users[u.id - 1].username == name@ && self@.users[u.id
                - 1].password_hash == u.password_hash@ && self@.users[u.id
                - 1].has_import_privileges == u.has_import_privileges,
    {
        match self.find_user_row(name) {
            Some(i) => {
                proof {
                    assert(self@.users[i as int].username == name@);
                }
                Some(self.users[i].clone())
            },
            None => None,
        }
    }

    /// Whether `user` has rated the mod `id`.
    fn is_rated_by(&self, user: i32, id: u128) -> (rated: bool)
        requires
            self.wf(),
        ensures
            rated == self@.rated_by(user, id),
    {
        let mut i: usize = 0;
        while i < self.ratings.len()
            invariant
                i <= self.ratings@.len(),
                forall|k: int|
                    0 <= k < i ==> !(self.ratings@[k].user_id == user && self.ratings@[k].mod_id
                        == id),
            decreases self.ratings@.len() - i,
        {
            if self.ratings[i].user_id == user && self.ratings[i].mod_id == id {
                return true;
            }
            i += 1;
        }
        false
    }

    /// Whether the mod `id` is linked to the category `category`.
    fn has_link(&self, id: u128, category: i32) -> (linked: bool)
        requires
            self.wf(),
        ensures
            linked == self@.links.contains((id, category)),
    {
        let mut i: usize = 0;
        while i < self.links.len()
            invariant
                i <= self.links@.len(),
                forall|k: int| 0 <= k < i ==> self.links@[k] != (id, category),
            decreases self.links@.len() - i,
        {
            if self.links[i].0 == id && self.links[i].1 == category {
                return true;
            }
            i += 1;
        }
        false
    }

    /// Whether the mod `id` is linked to a category whose name is among
    /// `names`.
    fn in_category_of(&self, id: u128, names: &Vec<String>) -> (found: bool)
        requires
            self.wf(),
        ensures
            found == self@.in_category_of(id, texts_of(names@)),
    {
        let mut c: usize = 0;
        while c < self.categories.len()
            invariant
                c <= self.categories@.len() <= i32::MAX,
                self.wf(),
                forall|k: int|
                    0 <= k < c ==> !(self@.links.contains((id, (k + 1) as i32)) && texts_of(
                        names@,
                    ).contains(#[trigger] self@.categories[k])),
            decreases self.categories@.len() - c,
        {
            if holds_text(names, self.categories[c].as_str()) && self.has_link(
                id,
                (c + 1) as i32,
            ) {
                proof {
                    assert(self@.categories[c as int] == self.categories@[c as int]@);
                }
                return true;
            }
            proof {
                assert(self@.categories[c as int] == self.categories@[c as int]@);
            }
            c += 1;
        }
        false
    }

    /// Whether the browsing query shows row `i` to `user`.
    fn shows_row(&self, options: &ModQueryOptions, user: i32, i: usize) -> (shown: bool)
        requires
            self.wf(),
            i < self.mods@.len(),
        ensures
            shown == self@.shows(*options, user, self.mods@[i as int].id),
    {
        proof {
            lemma_rows_map_at(self.mods@, i as int);
        }
        let row = &self.mods[i];
        if self.is_rated_by(user, row.id) {
            return false;
        }
        if !options.include_deprecated && row.deprecated {
            return false;
        }
        if !options.include_nsfw && row.nsfw {
            return false;
        }
        !self.in_category_of(row.id, &options.ignored_categories)
    }

    /// Row `i` as the queries hand it out.
    fn mod_at(&self, i: usize) -> (m: Mod)
        requires
            self.wf(),
            i < self.mods@.len(),
        ensures
            m@ == self@.mod_view(self.mods@[i as int].id),
    {
        proof {
            lemma_rows_map_at(self.mods@, i as int);
        }
        let row = &self.mods[i];
        let mut categories: Vec<String> = Vec::new();
        proof {
            assert(texts_of(categories@) =~= Seq::<Seq<char>>::empty());
        }
        let mut c: usize = 0;
        while c < self.categories.len()
            invariant
                c <= self.categories@.len() <= i32::MAX,
                self.wf(),
                texts_of(categories@) == self@.linked_names(row.id, c as nat),
            decreases self.categories@.len() - c,
        {
            if self.has_link(row.id, (c + 1) as i32) {
                let ghost before = categories@;
                let name = self.categories[c].clone();
                categories.push(name);
                proof {
                    assert(texts_of(categories@) =~= texts_of(before).push(name@));
                    assert(self@.categories[c as int] == name@);
                }
            }
            c += 1;
        }
        Mod {
            name: row.name.clone(),
            owner: row.owner.clone(),
            description: row.description.clone(),
            icon_url: row.icon_url.clone(),
            package_url: row.package_url.clone(),
            id: row.id,
            categories,
        }
    }

    /// The places of the rows that the browsing query shows to `user`, the
    /// most recently updated first; of two updated on one day, the one that
    /// was stored first.
    fn ranking(&self, options: &ModQueryOptions, user: i32) -> (order: Vec<usize>)
        requires
            self.wf(),
        ensures
            forall|p: int|
                0 <= p < order@.len() ==> (#[trigger] order@[p]) < self.mods@.len() && self@.shows(
                    *options,
                    user,
                    self.mods@[order@[p] as int].id,
                ),
            forall|p: int, q: int|
                0 <= p < q < order@.len() ==> (#[trigger] order@[p]) != (#[trigger] order@[q]),
            forall|p: int, q: int|
                0 <= p < q < order@.len() ==> date_key(self.mods@, (#[trigger] order@[p]) as int)
                    >= date_key(self.mods@, (#[trigger] order@[q]) as int),
            forall|r: int|
                0 <= r < self.mods@.len() && self@.shows(
                    *options,
                    user,
                    (#[trigger] self.mods@[r]).id,
                ) ==> exists|p: int| 0 <= p < order@.len() && (#[trigger] order@[p]) == r,
    {
        let mut order: Vec<usize> = Vec::new();
        let mut i: usize = 0;
        while i < self.mods.len()
            invariant
                i <= self.mods@.len(),
                self.wf(),
                forall|p: int|
                    0 <= p < order@.len() ==> (#[trigger] order@[p]) < i && self@.shows(
                        *options,
                        user,
                        self.mods@[order@[p] as int].id,
                    ),
                forall|p: int, q: int|
                    0 <= p < q < order@.len() ==> (#[trigger] order@[p]) != (
                    #[trigger] order@[q]),
                forall|p: int, q: int|
                    0 <= p < q < order@.len() ==> date_key(
                        self.mods@,
                        (#[trigger] order@[p]) as int,
                    ) >= date_key(self.mods@, (#[trigger] order@[q]) as int),
                forall|r: int|
                    0 <= r < i && self@.shows(*options, user, (#[trigger] self.mods@[r]).id)
                        ==> exists|p: int| 0 <= p < order@.len() && (#[trigger] order@[p]) == r,
            decreases self.mods@.len() - i,
        {
            if self.shows_row(options, user, i) {
                let mut at: usize = 0;
                let mut found: bool = false;
                while at < order.len() && !found
                    invariant
                        at <= order@.len(),
                        i < self.mods@.len(),
                        forall|p: int| 0 <= p < order@.len() ==> (#[trigger] order@[p]) < i,
                        forall|q: int|
                            0 <= q < at ==> date_key(self.mods@, (#[trigger] order@[q]) as int)
                                >= date_key(self.mods@, i as int),
                        found ==> at < order@.len() && date_key(self.mods@, i as int) > date_key(
                            self.mods@,
                            order@[at as int] as int,
                        ),
                    decreases order@.len() - at + (if found { 0int } else { 1int }),
                {
                    if self.mods[i].updated_date.is_after(&self.mods[order[at]].updated_date) {
                        found = true;
                    } else {
                        at += 1;
                    }
                }
                let ghost before = order@;
                order.insert(at, i);
                proof {
                    lemma_insert_places(before, at as int, i);
                    let after = order@;
                    assert forall|p: int| 0 <= p < after.len() implies (#[trigger] after[p]) < i + 1
                        && self@.shows(*options, user, self.mods@[after[p] as int].id) by {
                        if p < at {
                            assert(after[p] == before[p]);
                        } else if p > at {
                            assert(after[p] == before[p - 1]);
                        }
                    }
                    assert forall|p: int, q: int| 0 <= p < q < after.len() implies (
                    #[trigger] after[p]) != (#[trigger] after[q]) && date_key(
                        self.mods@,
                        after[p] as int,
                    ) >= date_key(self.mods@, after[q] as int) by {
                        let a = if p < at {
                            p
                        } else {
                            p - 1
                        };
                        let b = if q < at {
                            q
                        } else {
                            q - 1
                        };
                        if p != at {
                            assert(after[p] == before[a]);
                        }
                        if q != at {
                            assert(after[q] == before[b]);
                        }
                        if p == at {
                            assert(b >= at);
                            if b > at {
                                assert(date_key(self.mods@, before[at as int] as int) >= date_key(
                                    self.mods@,
                                    before[b] as int,
                                ));
                            }
                        } else if q == at {
                            assert(a < at);
                        } else {
                            assert(a < b);
                        }
                    }
                    assert forall|r: int|
                        0 <= r < i + 1 && self@.shows(
                            *options,
                            user,
                            (#[trigger] self.mods@[r]).id,
                        ) implies exists|p: int|
                        0 <= p < after.len() && (#[trigger] after[p]) == r by {
                        if r == i {
                            assert(after[at as int] == r);
                        } else {
                            let p = choose|p: int|
                                0 <= p < before.len() && (#[trigger] before[p]) == r;
                            if p < at {
                                assert(after[p] == r);
                            } else {
                                assert(after[p + 1] == before[p]);
                            }
                        }
                    }
                }
            }
            i += 1;
        }
        order
    }

    /// Answers the browsing query of `user`: the mods that the user has not
    /// rated and the options do not leave out, the most recently updated
    /// first, at most `limit` of them. A limit below zero is refused. In SQL:
    /// `select_mods`.
    pub fn get_mods(&self, options: &ModQueryOptions, user_id: i32) -> (feed: Result<
        Vec<Mod>,
        StoreError,
    >)
        requires
            self.wf(),
        ensures
            feed is Err <==> options.limit < 0,
            feed matches Err(e) ==> e == StoreError::NegativeLimit,
            feed matches Ok(mods) ==> self@.is_feed(*options, user_id, mod_views(mods@)),
    {
        if options.limit < 0 {
            return Err(StoreError::NegativeLimit);
        }
        let limit: usize = options.limit as usize;
        let mut order = self.ranking(options, user_id);
        let ghost full = order@;
        if order.len() > limit {
            order.truncate(limit);
        }
        proof {
            assert(order@ =~= full.take(order@.len() as int));
        }
        let mut mods: Vec<Mod> = Vec::new();
        let mut p: usize = 0;
        while p < order.len()
            invariant
                p <= order@.len(),
                self.wf(),
                mods@.len() == p,
                forall|k: int| 0 <= k < order@.len() ==> (#[trigger] order@[k]) < self.mods@.len(),
                forall|k: int|
                    0 <= k < p ==> (#[trigger] mods@[k])@ == self@.mod_view(
                        self.mods@[order@[k] as int].id,
                    ),
            decreases order@.len() - p,
        {
            let m = self.mod_at(order[p]);
            mods.push(m);
            p += 1;
        }
        proof {
            let feed = mod_views(mods@);
            let rows = self.mods@;
            assert forall|i: int| 0 <= i < feed.len() implies (#[trigger] feed[i]).id
                == rows[order@[i] as int].id by {
                assert(feed[i] == mods@[i]@);
            }
            assert forall|i: int| 0 <= i < feed.len() implies self@.shows(
                *options,
                user_id,
                (#[trigger] feed[i]).id,
            ) && feed[i] == self@.mod_view(feed[i].id) by {
                assert(feed[i] == mods@[i]@);
                assert(order@[i] == full[i]);
            }
            assert forall|i: int, j: int| 0 <= i < j < feed.len() implies (#[trigger] feed[i]).id
                != (#[trigger] feed[j]).id by {
                assert(order@[i] == full[i] && order@[j] == full[j]);
                assert(full[i] != full[j]);
                let a = order@[i] as int;
                let b = order@[j] as int;
                if a < b {
                    assert(rows[a].id != rows[b].id);
                } else {
                    assert(rows[b].id != rows[a].id);
                }
            }
            assert forall|i: int, j: int| 0 <= i < j < feed.len() implies self@.mods[(
            #[trigger] feed[i]).id].updated_date.key() >= self@.mods[(
            #[trigger] feed[j]).id].updated_date.key() by {
                assert(order@[i] == full[i] && order@[j] == full[j]);
                lemma_rows_map_at(rows, order@[i] as int);
                lemma_rows_map_at(rows, order@[j] as int);
                assert(date_key(rows, full[i] as int) >= date_key(rows, full[j] as int));
            }
            assert forall|id: u128|
                #![trigger self@.shows(*options, user_id, id)]
                self@.shows(*options, user_id, id) && !(exists|i: int|
                    0 <= i < feed.len() && (#[trigger] feed[i]).id == id) implies feed.len()
                == options.limit && forall|i: int|
                0 <= i < feed.len() ==> self@.mods[id].updated_date.key() <= self@.mods[(
                #[trigger] feed[i]).id].updated_date.key() by {
                assert(has_row(rows, id));
                let r = row_index(rows, id);
                lemma_rows_map_at(rows, r);
                assert(rows[r].id == id);
                let at = choose|at: int| 0 <= at < full.len() && (#[trigger] full[at]) == r;
                if at < order@.len() {
                    assert(order@[at] == full[at]);
                    assert(feed[at].id == id);
                }
                assert(at >= order@.len());
                assert forall|i: int| 0 <= i < feed.len() implies self@.mods[id].updated_date.key()
                    <= self@.mods[(#[trigger] feed[i]).id].updated_date.key() by {
                    assert(order@[i] == full[i]);
                    lemma_rows_map_at(rows, order@[i] as int);
                    assert(date_key(rows, full[i] as int) >= date_key(rows, full[at] as int));
                }
            }
        }
        Ok(mods)
    }

    /// Answers the query for the mods that `user` gave the rating `rating`:
    /// one for each such rating of a mod that is there, in the order of the
    /// ratings, the first `limit` of them. A limit below zero is refused. In
    /// SQL: `SELECT_RATED_MODS`.
    pub fn get_rated_mods(&self, rating: Rating, limit: i16, user_id: i32) -> (rated: Result<
        Vec<Mod>,
        StoreError,
    >)
        requires
            self.wf(),
        ensures
            rated is Err <==> limit < 0,
            rated matches Err(e) ==> e == StoreError::NegativeLimit,
            rated matches Ok(mods) ==> self@.is_rated_list(
                rating,
                limit as int,
                user_id,
                mod_views(mods@),
            ),
    {
        if limit < 0 {
            return Err(StoreError::NegativeLimit);
        }
        let limit: usize = limit as usize;
        let mut mods: Vec<Mod> = Vec::new();
        proof {
            assert(mod_views(mods@) =~= Seq::<ModView>::empty());
        }
        let mut k: usize = 0;
        while k < self.ratings.len() && mods.len() < limit
            invariant
                k <= self.ratings@.len(),
                self.wf(),
                mods@.len() <= limit,
                mod_views(mods@) == self@.rated_upto(rating, user_id, k as nat),
            decreases self.ratings@.len() - k,
        {
            let record = self.ratings[k];
            let ghost before = mods@;
            if record.user_id == user_id && record.rating == rating {
                match self.find_row(record.mod_id) {
                    Some(r) => {
                        proof {
                            lemma_rows_map_at(self.mods@, r as int);
                        }
                        let m = self.mod_at(r);
                        mods.push(m);
                        proof {
                            assert(mod_views(mods@) =~= mod_views(before).push(
                                self@.mod_view(record.mod_id),
                            ));
                        }
                    },
                    None => {},
                }
            }
            k += 1;
        }
        proof {
            let all = self@.rated(rating, user_id);
            let list = mod_views(mods@);
            lemma_rated_grows(self@, rating, user_id, k as nat, self.ratings@.len());
            if k == self.ratings@.len() {
                assert(all.take(all.len() as int) =~= all);
            }
        }
        Ok(mods)
    }
}

/// Lists the links between mods and categories that the rows ask for.
pub fn mod_category_links(mods: &Vec<InsertMod>) -> (links: Vec<(u128, i32)>)
    ensures
        links@ == catalog_links(insert_views(mods@)),
{
    let mut links: Vec<(u128, i32)> = Vec::new();
    let ghost views = insert_views(mods@);
    let mut i: usize = 0;
    while i < mods.len()
        invariant
            i <= mods@.len(),
            views == insert_views(mods@),
            links@ == catalog_links(views.take(i as int)),
        decreases mods@.len() - i,
    {
        let m = &mods[i];
        let ghost before = links@;
        let mut j: usize = 0;
        while j < m.category_ids.len()
            invariant
                j <= m.category_ids@.len(),
                links@ == before + m.category_ids@.take(j as int).map_values(
                    |category: i32| (m.uuid4, category),
                ),
            decreases m.category_ids@.len() - j,
        {
            links.push((m.uuid4, m.category_ids[j]));
            proof {
                assert(links@ =~= before + m.category_ids@.take(j + 1).map_values(
                    |category: i32| (m.uuid4, category),
                ));
            }
            j += 1;
        }
        proof {
            assert(m.category_ids@.take(j as int) =~= m.category_ids@);
            assert(views.take(i + 1).drop_last() =~= views.take(i as int));
            assert(views.take(i + 1).last() == m@);
        }
        i += 1;
    }
    proof {
        assert(views.take(i as int) =~= views);
    }
    links
}

} // verus!
