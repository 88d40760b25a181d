//! What the store holds, as mathematical values, and what each operation of
//! the store makes of it.

use crate::chunks::chunk_bounds;
use crate::db::InsertModView;
use crate::db::ModQueryOptions;
use crate::db::ModRecord;
use crate::mods::ModView;
use crate::mods::Rating;
use crate::text::texts_of;
use crate::timestamps::Timestamp;
use vstd::prelude::*;

verus! {

/// One rating: who rated which mod, and how.
#[derive(Debug, Clone, Copy, PartialEq, Eq, Structural)]
pub struct RatingRecord {
    pub user_id: i32,
    pub mod_id: u128,
    pub rating: Rating,
}

/// One row of the user table. The user's identifier is the row's place in
/// the table, counted from 1.
pub struct UserRecord {
    pub username: Seq<char>,
    pub password_hash: Seq<char>,
    pub has_import_privileges: bool,
}

/// The tables of the store.
#[verifier::ext_equal]
pub struct Tables {
    /// The mods, by identifier.
    pub mods: Map<u128, ModRecord>,
    /// The names of the categories, in the order in which they were first
    /// seen; no name occurs twice. The identifier of a category is its place
    /// in this list, counted from 1.
    pub categories: Seq<Seq<char>>,
    /// The links between mods and categories: mod identifier and category
    /// identifier.
    pub links: Set<(u128, i32)>,
    /// The instant of the last import, if there was one.
    pub import_date: Option<Timestamp>,
    /// The ratings, in the order in which they were given.
    pub ratings: Seq<RatingRecord>,
    /// The users; no name occurs twice.
    pub users: Seq<UserRecord>,
}

/// `seen`, followed by the names of `names` that occur neither in `seen` nor
/// earlier in `names`.
pub open spec fn with_new_names(seen: Seq<Seq<char>>, names: Seq<Seq<char>>) -> Seq<Seq<char>>
    decreases names.len(),
{
    if names.len() == 0 {
        seen
    } else {
        let earlier = with_new_names(seen, names.drop_last());
        if earlier.contains(names.last()) {
            earlier
        } else {
            earlier.push(names.last())
        }
    }
}

/// `with_new_names` adds to a list without repetition none, and holds what
/// `seen` or `names` holds.
pub proof fn lemma_with_new_names(seen: Seq<Seq<char>>, names: Seq<Seq<char>>)
    requires
        seen.no_duplicates(),
    ensures
        with_new_names(seen, names).no_duplicates(),
        forall|name: Seq<char>|
            #![trigger with_new_names(seen, names).contains(name)]
            with_new_names(seen, names).contains(name) <==> seen.contains(name) || names.contains(
                name,
            ),
    decreases names.len(),
{
    let all = with_new_names(seen, names);
    if names.len() > 0 {
        let front = names.drop_last();
        lemma_with_new_names(seen, front);
        let earlier = with_new_names(seen, front);
        let last = names.last();
        assert(names =~= front.push(last));
        assert forall|name: Seq<char>| all.contains(name) implies seen.contains(name)
            || names.contains(name) by {
            if earlier.contains(name) {
                if front.contains(name) {
                    let k = choose|k: int| 0 <= k < front.len() && front[k] == name;
                    assert(names[k] == name);
                }
            } else {
                let k = choose|k: int| 0 <= k < all.len() && all[k] == name;
                assert(k == earlier.len());
                assert(names[names.len() - 1] == name);
            }
        }
        assert forall|name: Seq<char>| seen.contains(name) || names.contains(name) implies all.contains(
            name,
        ) by {
            if seen.contains(name) || front.contains(name) {
                assert(earlier.contains(name));
                let k = choose|k: int| 0 <= k < earlier.len() && earlier[k] == name;
                assert(all[k] == name);
            } else {
                let k = choose|k: int| 0 <= k < names.len() && names[k] == name;
                assert(k == front.len());
                if earlier.contains(last) {
                } else {
                    assert(all[earlier.len() as int] == name);
                }
            }
        }
    }
}

/// Names that are all there add nothing.
pub proof fn lemma_known_names_add_nothing(seen: Seq<Seq<char>>, names: Seq<Seq<char>>)
    requires
        forall|i: int| 0 <= i < names.len() ==> seen.contains(#[trigger] names[i]),
    ensures
        with_new_names(seen, names) == seen,
    decreases names.len(),
{
    if names.len() > 0 {
        let front = names.drop_last();
        assert forall|i: int| 0 <= i < front.len() implies seen.contains(#[trigger] front[i]) by {
            assert(front[i] == names[i]);
        }
        lemma_known_names_add_nothing(seen, front);
        assert(seen.contains(names[names.len() - 1]));
    }
}

/// The links between mods and categories that the rows ask for: for each
/// mod in turn, one with each of its categories.
pub open spec fn catalog_links(mods: Seq<InsertModView>) -> Seq<(u128, i32)>
    decreases mods.len(),
{
    if mods.len() == 0 {
        Seq::empty()
    } else {
        catalog_links(mods.drop_last()) + mods.last().category_ids.map_values(
            |category: i32| (mods.last().record.id, category),
        )
    }
}

/// The rows `rows` after each row of `mods` in turn was written over the row
/// with its identifier, or added where there was none.
pub open spec fn upsert_all(rows: Map<u128, ModRecord>, mods: Seq<InsertModView>) -> Map<
    u128,
    ModRecord,
>
    decreases mods.len(),
{
    if mods.len() == 0 {
        rows
    } else {
        upsert_all(rows, mods.drop_last()).insert(mods.last().record.id, mods.last().record)
    }
}

/// The row of the last of `mods` that has the identifier `id`.
pub open spec fn last_row(mods: Seq<InsertModView>, id: u128) -> Option<ModRecord>
    decreases mods.len(),
{
    if mods.len() == 0 {
        None
    } else if mods.last().record.id == id {
        Some(mods.last().record)
    } else {
        last_row(mods.drop_last(), id)
    }
}

/// After `upsert_all` a mod holds the last row that `mods` has for it, or the
/// row it had where `mods` has none; and no other mod is there.
pub proof fn lemma_upsert_all(rows: Map<u128, ModRecord>, mods: Seq<InsertModView>)
    ensures
        forall|id: u128|
            #![trigger upsert_all(rows, mods).contains_key(id)]
            upsert_all(rows, mods).contains_key(id) <==> rows.contains_key(id) || last_row(
                mods,
                id,
            ) is Some,
        forall|id: u128|
            #![trigger upsert_all(rows, mods)[id]]
            upsert_all(rows, mods).contains_key(id) ==> upsert_all(rows, mods)[id] == match last_row(
                mods,
                id,
            ) {
                Some(row) => row,
                None => rows[id],
            },
    decreases mods.len(),
{
    if mods.len() > 0 {
        let front = mods.drop_last();
        lemma_upsert_all(rows, front);
        let all = upsert_all(rows, mods);
        assert(all == upsert_all(rows, front).insert(mods.last().record.id, mods.last().record));
        assert forall|id: u128| #![trigger all.contains_key(id)] all.contains_key(id) <==> rows.contains_key(id) || last_row(
            mods,
            id,
        ) is Some by {
            if id != mods.last().record.id {
                assert(all.contains_key(id) == upsert_all(rows, front).contains_key(id));
            }
        }
        assert forall|id: u128| #![trigger all[id]] all.contains_key(id) implies all[id] == match last_row(mods, id) {
            Some(row) => row,
            None => rows[id],
        } by {
            if id != mods.last().record.id {
                assert(upsert_all(rows, front).contains_key(id));
                assert(all[id] == upsert_all(rows, front)[id]);
            }
        }
    }
}

/// Writing one row is an insert into the map of the rows.
pub proof fn lemma_upsert_one(rows: Map<u128, ModRecord>, m: InsertModView)
    ensures
        upsert_all(rows, seq![m]) == rows.insert(m.record.id, m.record),
{
    let one = seq![m];
    assert(one.drop_last() =~= Seq::<InsertModView>::empty());
    assert(one.last() == m);
    assert(upsert_all(rows, one.drop_last()) == rows);
}

/// Writing `first` and then `second` is writing the two in one go.
pub proof fn lemma_upsert_all_concat(
    rows: Map<u128, ModRecord>,
    first: Seq<InsertModView>,
    second: Seq<InsertModView>,
)
    ensures
        upsert_all(upsert_all(rows, first), second) == upsert_all(rows, first + second),
    decreases second.len(),
{
    if second.len() == 0 {
        assert(first + second =~= first);
    } else {
        lemma_upsert_all_concat(rows, first, second.drop_last());
        assert((first + second).drop_last() =~= first + second.drop_last());
        assert((first + second).last() == second.last());
    }
}

/// Writing the same rows a second time changes nothing.
pub proof fn lemma_upsert_all_twice(rows: Map<u128, ModRecord>, mods: Seq<InsertModView>)
    ensures
        upsert_all(upsert_all(rows, mods), mods) == upsert_all(rows, mods),
{
    let once = upsert_all(rows, mods);
    let twice = upsert_all(once, mods);
    lemma_upsert_all(rows, mods);
    lemma_upsert_all(once, mods);
    assert forall|id: u128| twice.contains_key(id) == once.contains_key(id) by {}
    assert forall|id: u128| twice.contains_key(id) implies twice[id] == once[id] by {
        assert(once.contains_key(id));
    }
    assert(twice =~= once);
}

impl Tables {
    /// The store before anything was written.
    pub open spec fn empty() -> Tables {
        Tables {
            mods: Map::empty(),
            categories: Seq::empty(),
            links: Set::empty(),
            import_date: None,
            ratings: Seq::empty(),
            users: Seq::empty(),
        }
    }

    /// What holds of the tables of every store: there are finitely many
    /// mods, no name occurs in two categories or in two users, and every
    /// category and user has an identifier.
    pub open spec fn valid(self) -> bool {
        &&& self.mods.dom().finite()
        &&& self.categories.no_duplicates()
        &&& self.categories.len() <= i32::MAX
        &&& self.users.len() <= i32::MAX
        &&& forall|i: int, j: int|
            0 <= i < j < self.users.len() ==> (#[trigger] self.users[i]).username != (
            #[trigger] self.users[j]).username
    }

    /// The identifiers of the categories, by name.
    pub open spec fn category_ids(self) -> Map<Seq<char>, i32> {
        Map::new(
            |name: Seq<char>| self.categories.contains(name),
            |name: Seq<char>| (self.categories.index_of(name) + 1) as i32,
        )
    }

    /// The tables with the categories of `names` added: a name that is
    /// already there changes nothing, and no category leaves.
    pub open spec fn with_categories(self, names: Seq<Seq<char>>) -> Tables {
        Tables { categories: with_new_names(self.categories, names), ..self }
    }

    /// The tables without any link.
    pub open spec fn without_links(self) -> Tables {
        Tables { links: Set::empty(), ..self }
    }

    /// The tables with the rows of `mods` written.
    pub open spec fn with_mods(self, mods: Seq<InsertModView>) -> Tables {
        Tables { mods: upsert_all(self.mods, mods), ..self }
    }

    /// The tables with `links` added: a link that is already there changes
    /// nothing.
    pub open spec fn with_links(self, links: Seq<(u128, i32)>) -> Tables {
        Tables { links: self.links.union(links.to_set()), ..self }
    }

    /// The tables after the import of `mods`: the links are exactly those
    /// that `mods` asks for, each mod of `mods` has its last row in `mods`,
    /// and every other mod is untouched.
    pub open spec fn imported(self, mods: Seq<InsertModView>) -> Tables {
        self.without_links().with_mods(mods).with_links(catalog_links(mods))
    }

    /// The tables with the rows of `mods` from index `from` on written in
    /// chunks of `size` rows, one chunk after the other.
    pub open spec fn with_mods_in_chunks(
        self,
        mods: Seq<InsertModView>,
        from: nat,
        size: nat,
    ) -> Tables
        decreases mods.len() - from,
    {
        if from >= mods.len() || size == 0 {
            self
        } else {
            let to = if mods.len() - from <= size {
                mods.len()
            } else {
                from + size
            };
            self.with_mods(mods.subrange(from as int, to as int)).with_mods_in_chunks(
                mods,
                to,
                size,
            )
        }
    }

    /// The tables with the links of `links` from index `from` on added in
    /// chunks of `size` links, one chunk after the other.
    pub open spec fn with_links_in_chunks(self, links: Seq<(u128, i32)>, from: nat, size: nat) -> Tables
        decreases links.len() - from,
    {
        if from >= links.len() || size == 0 {
            self
        } else {
            let to = if links.len() - from <= size {
                links.len()
            } else {
                from + size
            };
            self.with_links(links.subrange(from as int, to as int)).with_links_in_chunks(
                links,
                to,
                size,
            )
        }
    }

    /// The tables with the rows of `mods` written range by range.
    pub open spec fn with_mods_by(self, mods: Seq<InsertModView>, bounds: Seq<(nat, nat)>) -> Tables
        decreases bounds.len(),
    {
        if bounds.len() == 0 {
            self
        } else {
            self.with_mods(mods.subrange(bounds[0].0 as int, bounds[0].1 as int)).with_mods_by(
                mods,
                bounds.drop_first(),
            )
        }
    }

    /// The tables with the links of `links` added range by range.
    pub open spec fn with_links_by(self, links: Seq<(u128, i32)>, bounds: Seq<(nat, nat)>) -> Tables
        decreases bounds.len(),
    {
        if bounds.len() == 0 {
            self
        } else {
            self.with_links(
                links.subrange(bounds[0].0 as int, bounds[0].1 as int),
            ).with_links_by(links, bounds.drop_first())
        }
    }

    /// The tables after the import of `mods` in chunks of `size`: every link
    /// removed, then the rows written chunk by chunk, then the links added
    /// chunk by chunk.
    pub open spec fn imported_in_chunks(self, mods: Seq<InsertModView>, size: nat) -> Tables {
        self.without_links().with_mods_in_chunks(mods, 0, size).with_links_in_chunks(
            catalog_links(mods),
            0,
            size,
        )
    }

    /// The tables with the instant of the last import set.
    pub open spec fn with_import_date(self, date: Timestamp) -> Tables {
        Tables { import_date: Some(date), ..self }
    }

    /// The tables with one more rating.
    pub open spec fn with_rating(self, rating: RatingRecord) -> Tables {
        Tables { ratings: self.ratings.push(rating), ..self }
    }

    /// Whether there is a user called `name`.
    pub open spec fn has_user(self, name: Seq<char>) -> bool {
        exists|i: int| 0 <= i < self.users.len() && (#[trigger] self.users[i]).username == name
    }

    /// The tables with one more user, without the privilege to import.
    pub open spec fn with_user(self, username: Seq<char>, password_hash: Seq<char>) -> Tables {
        Tables {
            users: self.users.push(
                UserRecord { username, password_hash, has_import_privileges: false },
            ),
            ..self
        }
    }

    /// Whether `user` has rated the mod `id`, however.
    pub open spec fn rated_by(self, user: i32, id: u128) -> bool {
        exists|i: int|
            0 <= i < self.ratings.len() && (#[trigger] self.ratings[i]).user_id == user
                && self.ratings[i].mod_id == id
    }

    /// Whether `user` has given the mod `id` the rating `rating`.
    pub open spec fn rated_as(self, user: i32, id: u128, rating: Rating) -> bool {
        exists|i: int|
            0 <= i < self.ratings.len() && (#[trigger] self.ratings[i]) == (RatingRecord {
                user_id: user,
                mod_id: id,
                rating,
            })
    }

    /// Whether the mod `id` is linked to a category whose name is among
    /// `names`.
    pub open spec fn in_category_of(self, id: u128, names: Seq<Seq<char>>) -> bool {
        exists|c: int|
            0 <= c < self.categories.len() && self.links.contains((id, (c + 1) as i32))
                && names.contains(#[trigger] self.categories[c])
    }

    /// Whether the browsing query shows the mod `id` to `user`: the mod is
    /// there, the user has not rated it, it is neither deprecated nor adult
    /// unless the options include such mods, and it is in no ignored category.
    pub open spec fn shows(self, options: ModQueryOptions, user: i32, id: u128) -> bool {
        &&& self.mods.contains_key(id)
        &&& !self.rated_by(user, id)
        &&& (options.include_deprecated || !self.mods[id].deprecated)
        &&& (options.include_nsfw || !self.mods[id].nsfw)
        &&& !self.in_category_of(id, texts_of(options.ignored_categories@))
    }

    /// The names of the categories, among the first `upto`, that the mod `id`
    /// is linked to, in the order of the categories.
    pub open spec fn linked_names(self, id: u128, upto: nat) -> Seq<Seq<char>>
        decreases upto,
    {
        if upto == 0 {
            Seq::empty()
        } else {
            let earlier = self.linked_names(id, (upto - 1) as nat);
            if upto <= self.categories.len() && self.links.contains((id, upto as i32)) {
                earlier.push(self.categories[upto - 1])
            } else {
                earlier
            }
        }
    }

    /// The mod `id` as the queries hand it out.
    pub open spec fn mod_view(self, id: u128) -> ModView {
        ModView {
            name: self.mods[id].name,
            owner: self.mods[id].owner,
            description: self.mods[id].description,
            icon_url: self.mods[id].icon_url,
            package_url: self.mods[id].package_url,
            id,
            categories: self.linked_names(id, self.categories.len()),
        }
    }

    /// Whether `feed` is an answer to the browsing query of `user`: mods that
    /// the query shows, each once and as the tables hold it, the most
    /// recently updated first, at most `limit` of them; and a mod that the
    /// query shows is left out only where the limit is reached, and then it
    /// was updated no later than any mod of the answer.
    pub open spec fn is_feed(self, options: ModQueryOptions, user: i32, feed: Seq<ModView>) -> bool {
        &&& feed.len() <= options.limit
        &&& forall|i: int|
            0 <= i < feed.len() ==> self.shows(options, user, (#[trigger] feed[i]).id) && feed[i]
                == self.mod_view(feed[i].id)
        &&& forall|i: int, j: int|
            0 <= i < j < feed.len() ==> (#[trigger] feed[i]).id != (#[trigger] feed[j]).id
        &&& forall|i: int, j: int|
            0 <= i < j < feed.len() ==> self.mods[(#[trigger] feed[i]).id].updated_date.key()
                >= self.mods[(#[trigger] feed[j]).id].updated_date.key()
        &&& forall|id: u128|
            #![trigger self.shows(options, user, id)]
            self.shows(options, user, id) && !(exists|i: int|
                0 <= i < feed.len() && (#[trigger] feed[i]).id == id) ==> feed.len()
                == options.limit && forall|i: int|
                0 <= i < feed.len() ==> self.mods[id].updated_date.key() <= self.mods[(
                #[trigger] feed[i]).id].updated_date.key()
    }

    /// The mods of the ratings, among the first `upto`, in which `user` gave
    /// `rating` to a mod that is there: one for each such rating, in the
    /// order of the ratings, each as the queries hand it out.
    pub open spec fn rated_upto(self, rating: Rating, user: i32, upto: nat) -> Seq<ModView>
        decreases upto,
    {
        if upto == 0 {
            Seq::empty()
        } else {
            let earlier = self.rated_upto(rating, user, (upto - 1) as nat);
            let record = self.ratings[upto - 1];
            if upto <= self.ratings.len() && record.user_id == user && record.rating == rating
                && self.mods.contains_key(record.mod_id) {
                earlier.push(self.mod_view(record.mod_id))
            } else {
                earlier
            }
        }
    }

    /// The mods that `user` gave the rating `rating`: one for each such
    /// rating of a mod that is there, in the order of the ratings. No filter
    /// of the browsing query applies.
    pub open spec fn rated(self, rating: Rating, user: i32) -> Seq<ModView> {
        self.rated_upto(rating, user, self.ratings.len())
    }

    /// Whether `list` is the answer to the query for the mods that `user`
    /// gave the rating `rating`: the first `limit` of them, or all where
    /// there are no more.
    pub open spec fn is_rated_list(
        self,
        rating: Rating,
        limit: int,
        user: i32,
        list: Seq<ModView>,
    ) -> bool {
        let all = self.rated(rating, user);
        limit >= 0 && list == all.take(
            if limit < all.len() {
                limit
            } else {
                all.len() as int
            },
        )
    }
}

/// The rated mods of more ratings begin with the rated mods of fewer.
pub proof fn lemma_rated_grows(tables: Tables, rating: Rating, user: i32, fewer: nat, more: nat)
    requires
        fewer <= more,
    ensures
        tables.rated_upto(rating, user, fewer).len() <= tables.rated_upto(rating, user, more).len(),
        tables.rated_upto(rating, user, more).take(
            tables.rated_upto(rating, user, fewer).len() as int,
        ) == tables.rated_upto(rating, user, fewer),
    decreases more,
{
    let short = tables.rated_upto(rating, user, fewer);
    if fewer == more {
        assert(short.take(short.len() as int) =~= short);
    } else {
        lemma_rated_grows(tables, rating, user, fewer, (more - 1) as nat);
        let earlier = tables.rated_upto(rating, user, (more - 1) as nat);
        let all = tables.rated_upto(rating, user, more);
        assert(all.take(short.len() as int) =~= earlier.take(short.len() as int));
    }
}

/// The rated mods are the mods that are there and that the user gave the
/// rating, whatever else holds of them; each stands as the tables hold it.
pub proof fn rated_holds_exactly_the_rated_mods(
    tables: Tables,
    rating: Rating,
    user: i32,
    upto: nat,
)
    requires
        upto <= tables.ratings.len(),
    ensures
        forall|i: int|
            0 <= i < tables.rated_upto(rating, user, upto).len() ==> tables.mods.contains_key(
                (#[trigger] tables.rated_upto(rating, user, upto)[i]).id,
            ) && tables.rated_as(user, tables.rated_upto(rating, user, upto)[i].id, rating)
                && tables.rated_upto(rating, user, upto)[i] == tables.mod_view(
                tables.rated_upto(rating, user, upto)[i].id,
            ),
        forall|j: int|
            0 <= j < upto && (#[trigger] tables.ratings[j]).user_id == user
                && tables.ratings[j].rating == rating && tables.mods.contains_key(
                tables.ratings[j].mod_id,
            ) ==> exists|i: int|
                0 <= i < tables.rated_upto(rating, user, upto).len() && (
                #[trigger] tables.rated_upto(rating, user, upto)[i]).id
                    == tables.ratings[j].mod_id,
    decreases upto,
{
    if upto > 0 {
        rated_holds_exactly_the_rated_mods(tables, rating, user, (upto - 1) as nat);
        let earlier = tables.rated_upto(rating, user, (upto - 1) as nat);
        let all = tables.rated_upto(rating, user, upto);
        let record = tables.ratings[upto - 1];
        assert forall|i: int| 0 <= i < all.len() implies tables.mods.contains_key(
            (#[trigger] all[i]).id,
        ) && tables.rated_as(user, all[i].id, rating) && all[i] == tables.mod_view(all[i].id) by {
            if i < earlier.len() {
                assert(all[i] == earlier[i]);
            } else {
                assert(all[i] == tables.mod_view(record.mod_id));
                assert(tables.ratings[upto - 1] == (RatingRecord {
                    user_id: user,
                    mod_id: record.mod_id,
                    rating,
                }));
            }
        }
        assert forall|j: int|
            0 <= j < upto && (#[trigger] tables.ratings[j]).user_id == user
                && tables.ratings[j].rating == rating && tables.mods.contains_key(
                tables.ratings[j].mod_id,
            ) implies exists|i: int|
            0 <= i < all.len() && (#[trigger] all[i]).id == tables.ratings[j].mod_id by {
            if j < upto - 1 {
                let i = choose|i: int|
                    0 <= i < earlier.len() && (#[trigger] earlier[i]).id
                        == tables.ratings[j].mod_id;
                assert(all[i] == earlier[i]);
            } else {
                assert(all[earlier.len() as int].id == record.mod_id);
            }
        }
    }
}

/// Writing rows chunk by chunk is writing them in one go.
pub proof fn lemma_with_mods_in_chunks(tables: Tables, mods: Seq<InsertModView>, from: nat, size: nat)
    requires
        from <= mods.len(),
        size > 0,
    ensures
        tables.with_mods_in_chunks(mods, from, size) == tables.with_mods(
            mods.subrange(from as int, mods.len() as int),
        ),
    decreases mods.len() - from,
{
    if from >= mods.len() {
        assert(mods.subrange(from as int, mods.len() as int) =~= Seq::<InsertModView>::empty());
        assert(tables.with_mods(Seq::<InsertModView>::empty()) =~= tables);
    } else {
        let to = if mods.len() - from <= size {
            mods.len()
        } else {
            from + size
        };
        let chunk = mods.subrange(from as int, to as int);
        let rest = mods.subrange(to as int, mods.len() as int);
        lemma_with_mods_in_chunks(tables.with_mods(chunk), mods, to, size);
        lemma_upsert_all_concat(tables.mods, chunk, rest);
        assert(chunk + rest =~= mods.subrange(from as int, mods.len() as int));
        assert(tables.with_mods(chunk).with_mods(rest) =~= tables.with_mods(chunk + rest));
    }
}

/// Adding links chunk by chunk is adding them in one go.
pub proof fn lemma_with_links_in_chunks(
    tables: Tables,
    links: Seq<(u128, i32)>,
    from: nat,
    size: nat,
)
    requires
        from <= links.len(),
        size > 0,
    ensures
        tables.with_links_in_chunks(links, from, size) == tables.with_links(
            links.subrange(from as int, links.len() as int),
        ),
    decreases links.len() - from,
{
    if from >= links.len() {
        assert(links.subrange(from as int, links.len() as int) =~= Seq::<(u128, i32)>::empty());
        assert(tables.with_links(Seq::<(u128, i32)>::empty()) =~= tables);
    } else {
        let to = if links.len() - from <= size {
            links.len()
        } else {
            from + size
        };
        let chunk = links.subrange(from as int, to as int);
        let rest = links.subrange(to as int, links.len() as int);
        let whole = links.subrange(from as int, links.len() as int);
        lemma_with_links_in_chunks(tables.with_links(chunk), links, to, size);
        assert(chunk + rest =~= whole);
        assert forall|link: (u128, i32)| whole.to_set().contains(link) <==> chunk.to_set().contains(
            link,
        ) || rest.to_set().contains(link) by {
            if whole.contains(link) {
                let k = choose|k: int| 0 <= k < whole.len() && whole[k] == link;
                if k < chunk.len() {
                    assert(chunk[k] == link);
                } else {
                    assert(rest[k - chunk.len()] == link);
                }
            }
            if chunk.contains(link) {
                let k = choose|k: int| 0 <= k < chunk.len() && chunk[k] == link;
                assert(whole[k] == link);
            }
            if rest.contains(link) {
                let k = choose|k: int| 0 <= k < rest.len() && rest[k] == link;
                assert(whole[chunk.len() + k] == link);
            }
        }
        assert(tables.with_links(chunk).with_links(rest) =~= tables.with_links(whole));
    }
}

/// The chunks in which rows are written are the ranges of `chunk_bounds`:
/// those that the statements of an import are cut by.
pub proof fn row_chunks_are_the_ranges_of_chunk_bounds(
    tables: Tables,
    mods: Seq<InsertModView>,
    from: nat,
    size: nat,
)
    ensures
        tables.with_mods_in_chunks(mods, from, size) == tables.with_mods_by(
            mods,
            chunk_bounds(from, mods.len(), size),
        ),
    decreases mods.len() - from,
{
    if from < mods.len() && size > 0 {
        let to = if mods.len() - from <= size {
            mods.len()
        } else {
            from + size
        };
        let bounds = chunk_bounds(from, mods.len(), size);
        let rest = chunk_bounds(to, mods.len(), size);
        assert(bounds[0] == (from, to));
        assert(bounds.drop_first() =~= rest);
        row_chunks_are_the_ranges_of_chunk_bounds(
            tables.with_mods(mods.subrange(from as int, to as int)),
            mods,
            to,
            size,
        );
    }
}

/// The chunks in which links are added are the ranges of `chunk_bounds`:
/// those that the statements of an import are cut by.
pub proof fn link_chunks_are_the_ranges_of_chunk_bounds(
    tables: Tables,
    links: Seq<(u128, i32)>,
    from: nat,
    size: nat,
)
    ensures
        tables.with_links_in_chunks(links, from, size) == tables.with_links_by(
            links,
            chunk_bounds(from, links.len(), size),
        ),
    decreases links.len() - from,
{
    if from < links.len() && size > 0 {
        let to = if links.len() - from <= size {
            links.len()
        } else {
            from + size
        };
        let bounds = chunk_bounds(from, links.len(), size);
        let rest = chunk_bounds(to, links.len(), size);
        assert(bounds[0] == (from, to));
        assert(bounds.drop_first() =~= rest);
        link_chunks_are_the_ranges_of_chunk_bounds(
            tables.with_links(links.subrange(from as int, to as int)),
            links,
            to,
            size,
        );
    }
}

/// An import in chunks leaves the tables as the import in one go does,
/// whatever the size of the chunks.
pub proof fn import_in_chunks_is_import(tables: Tables, mods: Seq<InsertModView>, size: nat)
    requires
        size > 0,
    ensures
        tables.imported_in_chunks(mods, size) == tables.imported(mods),
{
    let links = catalog_links(mods);
    lemma_with_mods_in_chunks(tables.without_links(), mods, 0, size);
    assert(mods.subrange(0, mods.len() as int) =~= mods);
    lemma_with_links_in_chunks(tables.without_links().with_mods(mods), links, 0, size);
    assert(links.subrange(0, links.len() as int) =~= links);
}

/// The size of the chunks does not show in what an import leaves.
pub proof fn chunk_size_does_not_matter(
    tables: Tables,
    mods: Seq<InsertModView>,
    size: nat,
    other_size: nat,
)
    requires
        size > 0,
        other_size > 0,
    ensures
        tables.imported_in_chunks(mods, size) == tables.imported_in_chunks(mods, other_size),
        tables.imported_in_chunks(mods, size) == tables.imported(mods),
{
    import_in_chunks_is_import(tables, mods, size);
    import_in_chunks_is_import(tables, mods, other_size);
}

/// Importing the same catalog a second time changes nothing: neither a row
/// nor a link.
pub proof fn import_twice_is_import_once(tables: Tables, mods: Seq<InsertModView>)
    ensures
        tables.imported(mods).imported(mods) == tables.imported(mods),
{
    let once = tables.imported(mods);
    let twice = once.imported(mods);
    lemma_upsert_all_twice(tables.mods, mods);
    assert(twice.mods == once.mods);
    assert(twice.links =~= once.links);
    assert(twice =~= once);
}

/// Every category stays where it is, under its identifier, when categories
/// are added and when a catalog is imported, whether or not the catalog
/// mentions it.
pub proof fn categories_are_never_removed(
    tables: Tables,
    names: Seq<Seq<char>>,
    mods: Seq<InsertModView>,
)
    ensures
        tables.imported(mods).categories == tables.categories,
        tables.with_categories(names).categories.len() >= tables.categories.len(),
        forall|i: int|
            0 <= i < tables.categories.len() ==> #[trigger] tables.with_categories(
                names,
            ).imported(mods).categories[i] == tables.categories[i],
{
    lemma_new_names_follow(tables.categories, names);
    assert forall|i: int| 0 <= i < tables.categories.len() implies #[trigger] tables.with_categories(
        names,
    ).imported(mods).categories[i] == tables.categories[i] by {
        assert(with_new_names(tables.categories, names)[i] == tables.categories[i]);
    }
}

/// The names of a part of `names` add no more than all of `names` do.
pub proof fn lemma_new_names_grow(seen: Seq<Seq<char>>, names: Seq<Seq<char>>, upto: int)
    requires
        0 <= upto <= names.len(),
    ensures
        with_new_names(seen, names.take(upto)).len() <= with_new_names(seen, names).len(),
    decreases names.len(),
{
    if upto == names.len() {
        assert(names.take(upto) =~= names);
    } else {
        let front = names.drop_last();
        assert(front.take(upto) =~= names.take(upto));
        lemma_new_names_grow(seen, front, upto);
    }
}

/// `with_new_names` leaves what was seen where it is.
pub proof fn lemma_new_names_follow(seen: Seq<Seq<char>>, names: Seq<Seq<char>>)
    ensures
        with_new_names(seen, names).len() >= seen.len(),
        forall|i: int| 0 <= i < seen.len() ==> #[trigger] with_new_names(seen, names)[i] == seen[i],
    decreases names.len(),
{
    if names.len() > 0 {
        lemma_new_names_follow(seen, names.drop_last());
        let earlier = with_new_names(seen, names.drop_last());
        assert forall|i: int| 0 <= i < seen.len() implies #[trigger] with_new_names(seen, names)[i]
            == seen[i] by {
            assert(earlier[i] == seen[i]);
        }
    }
}

/// A rating hides the mod from the one who gave it, whatever the rating, and
/// from nobody else: to any other user the query shows what it showed.
pub proof fn rating_hides_mod_from_its_user_only(
    tables: Tables,
    options: ModQueryOptions,
    rating: RatingRecord,
    other_user: i32,
    id: u128,
)
    requires
        other_user != rating.user_id,
    ensures
        !tables.with_rating(rating).shows(options, rating.user_id, rating.mod_id),
        tables.with_rating(rating).shows(options, other_user, id) == tables.shows(
            options,
            other_user,
            id,
        ),
{
    let after = tables.with_rating(rating);
    assert(after.ratings[tables.ratings.len() as int] == rating);
    assert(after.rated_by(rating.user_id, rating.mod_id));
    if tables.rated_by(other_user, id) {
        let i = choose|i: int|
            0 <= i < tables.ratings.len() && (#[trigger] tables.ratings[i]).user_id == other_user
                && tables.ratings[i].mod_id == id;
        assert(after.ratings[i] == tables.ratings[i]);
        assert(after.rated_by(other_user, id));
    }
    if after.rated_by(other_user, id) {
        let i = choose|i: int|
            0 <= i < after.ratings.len() && (#[trigger] after.ratings[i]).user_id == other_user
                && after.ratings[i].mod_id == id;
        assert(i < tables.ratings.len());
        assert(tables.ratings[i] == after.ratings[i]);
        assert(tables.rated_by(other_user, id));
    }
    assert(after.in_category_of(id, texts_of(options.ignored_categories@))
        == tables.in_category_of(id, texts_of(options.ignored_categories@)));
}

/// The filters of the browsing query work one by one: leaving deprecated
/// mods out drops exactly the deprecated ones from what is shown with them,
/// leaving adult mods out drops exactly the adult ones, and ignoring no
/// category drops none.
pub proof fn filters_drop_exactly_what_they_name(
    tables: Tables,
    options: ModQueryOptions,
    user: i32,
    id: u128,
)
    ensures
        tables.shows(ModQueryOptions { include_deprecated: false, ..options }, user, id) <==> (
        tables.shows(ModQueryOptions { include_deprecated: true, ..options }, user, id)
            && !tables.mods[id].deprecated),
        tables.shows(ModQueryOptions { include_nsfw: false, ..options }, user, id) <==> (
        tables.shows(ModQueryOptions { include_nsfw: true, ..options }, user, id)
            && !tables.mods[id].nsfw),
        options.ignored_categories@.len() == 0 && options.include_deprecated
            && options.include_nsfw ==> (tables.shows(options, user, id)
            <==> tables.mods.contains_key(id) && !tables.rated_by(user, id)),
{
    if options.ignored_categories@.len() == 0 {
        assert(texts_of(options.ignored_categories@) =~= Seq::<Seq<char>>::empty());
        assert(!tables.in_category_of(id, texts_of(options.ignored_categories@)));
    }
}

/// An answer to the browsing query that stays below the limit holds every
/// mod that the query shows.
pub proof fn feed_below_the_limit_is_complete(
    tables: Tables,
    options: ModQueryOptions,
    user: i32,
    feed: Seq<ModView>,
    id: u128,
)
    requires
        tables.is_feed(options, user, feed),
        feed.len() < options.limit,
    ensures
        tables.shows(options, user, id) <==> exists|i: int|
            0 <= i < feed.len() && (#[trigger] feed[i]).id == id,
{
    if exists|i: int| 0 <= i < feed.len() && (#[trigger] feed[i]).id == id {
        let i = choose|i: int| 0 <= i < feed.len() && (#[trigger] feed[i]).id == id;
        assert(tables.shows(options, user, feed[i].id));
    }
}

/// An answer to the browsing query under a limit of at least the number of
/// mods holds every mod that the query shows.
pub proof fn feed_under_a_limit_of_all_mods_is_complete(
    tables: Tables,
    options: ModQueryOptions,
    user: i32,
    feed: Seq<ModView>,
    id: u128,
)
    requires
        tables.valid(),
        tables.is_feed(options, user, feed),
        options.limit >= tables.mods.dom().len(),
    ensures
        tables.shows(options, user, id) <==> exists|i: int|
            0 <= i < feed.len() && (#[trigger] feed[i]).id == id,
{
    if feed.len() < options.limit {
        feed_below_the_limit_is_complete(tables, options, user, feed, id);
    } else {
        let ids = feed.map_values(|m: ModView| m.id);
        assert(ids.no_duplicates()) by {
            assert forall|i: int, j: int| 0 <= i < ids.len() && 0 <= j < ids.len() && i != j implies ids[i]
                != ids[j] by {
                if i < j {
                    assert(feed[i].id != feed[j].id);
                } else {
                    assert(feed[j].id != feed[i].id);
                }
            }
        }
        ids.unique_seq_to_set();
        assert(ids.to_set().subset_of(tables.mods.dom())) by {
            assert forall|a: u128| ids.to_set().contains(a) implies tables.mods.dom().contains(
                a,
            ) by {
                let i = choose|i: int| 0 <= i < ids.len() && ids[i] == a;
                assert(tables.shows(options, user, feed[i].id));
            }
        }
        vstd::set_lib::lemma_len_subset(ids.to_set(), tables.mods.dom());
        vstd::set_lib::lemma_subset_equality(ids.to_set(), tables.mods.dom());
        if tables.shows(options, user, id) {
            assert(ids.to_set().contains(id));
            let i = choose|i: int| 0 <= i < ids.len() && ids[i] == id;
            assert(feed[i].id == id);
        }
        if exists|i: int| 0 <= i < feed.len() && (#[trigger] feed[i]).id == id {
            let i = choose|i: int| 0 <= i < feed.len() && (#[trigger] feed[i]).id == id;
            assert(tables.shows(options, user, feed[i].id));
        }
    }
}

} // verus!
