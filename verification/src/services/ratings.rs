//! The pages on which mods are rated.

use crate::db::Database;
use crate::db::mod_views;
use crate::db::ModQueryOptions;
use crate::db::StoreError;
use crate::ids::parsed_uuid;
use crate::ids::try_parse_uuid;
use crate::mods::Mod;
use crate::mods::Rating;
use crate::services::settings::Settings;
use crate::tables::RatingRecord;
use vstd::prelude::*;

verus! {

/// What the rating page has to show.
#[derive(Debug)]
pub enum RatingPage {
    /// The mod to rate next.
    Show(Mod),
    /// There is no mod left to show to this user: none at all before the
    /// first import.
    NoModsFound,
    /// The store refused the query.
    DatabaseError,
}

/// Picks the mod that the rating page shows from the answer to the browsing
/// query.
pub fn first_mod(feed: Result<Vec<Mod>, StoreError>) -> (page: RatingPage)
    ensures
        match feed {
            Err(_) => page is DatabaseError,
            Ok(mods) => if mods@.len() == 0 {
                page is NoModsFound
            } else {
                page matches RatingPage::Show(m) && m == mods@[0]
            },
        },
{
    match feed {
        Err(_) => RatingPage::DatabaseError,
        Ok(mods) => {
            let mut mods = mods;
            if mods.len() == 0 {
                RatingPage::NoModsFound
            } else {
                RatingPage::Show(mods.swap_remove(0))
            }
        },
    }
}

/// Decides what the rating page shows to `user_id`: of the mods that the
/// browsing query shows under the user's settings, one that was updated most
/// recently; or that there is none.
pub fn rating_page(db: &Database, settings: &Settings, user_id: i32) -> (page: (
    RatingPage,
    ModQueryOptions,
))
    requires
        db.wf(),
    ensures
        page.1.limit == 1,
        page.1.include_deprecated == settings.include_deprecated,
        page.1.include_nsfw == settings.include_nsfw,
        crate::text::texts_of(page.1.ignored_categories@) == crate::text::texts_of(
            settings.excluded_category@,
        ),
        !(page.0 is DatabaseError),
        page.0 is NoModsFound <==> forall|id: u128| !db@.shows(page.1, user_id, id),
        page.0 matches RatingPage::Show(m) ==> db@.shows(page.1, user_id, m.id) && m@
            == db@.mod_view(m.id) && forall|id: u128|
            #![trigger db@.shows(page.1, user_id, id)]
            db@.shows(page.1, user_id, id) ==> db@.mods[id].updated_date.key()
                <= db@.mods[m.id].updated_date.key(),
{
    let options = settings.query_options(1);
    let feed = db.get_mods(&options, user_id);
    let ghost mods = feed->Ok_0;
    let ghost views = mod_views(mods@);
    let page = first_mod(feed);
    proof {
        assert(db@.is_feed(options, user_id, views));
        assert(views.len() == mods@.len());
        if views.len() == 0 {
            assert forall|id: u128| !db@.shows(options, user_id, id) by {
                if db@.shows(options, user_id, id) {
                    assert(!(exists|i: int| 0 <= i < views.len() && (#[trigger] views[i]).id == id));
                }
            }
            assert(page is NoModsFound);
        } else {
            assert(views[0] == mods@[0]@);
            assert(db@.shows(options, user_id, views[0].id));
            assert(!(forall|id: u128| !db@.shows(options, user_id, id)));
            assert(!(page is NoModsFound));
            assert forall|id: u128|
                #![trigger db@.shows(options, user_id, id)]
                db@.shows(options, user_id, id) implies db@.mods[id].updated_date.key()
                <= db@.mods[mods@[0].id].updated_date.key() by {
                if exists|i: int| 0 <= i < views.len() && (#[trigger] views[i]).id == id {
                    let i = choose|i: int| 0 <= i < views.len() && (#[trigger] views[i]).id == id;
                    assert(i == 0);
                }
            }
        }
    }
    (page, options)
}

/// Why a rating is refused.
#[derive(Debug, Clone, Copy, PartialEq, Eq, Structural)]
pub enum RatingError {
    /// The mod's identifier is not a UUID.
    BadModUuid,
}

/// Records the rating of the mod that `mod_id` was read as, and refuses,
/// with nothing changed, where it was read as nothing.
pub fn record_rating(db: &mut Database, mod_id: Option<u128>, rating: Rating, user_id: i32) -> (done:
    Result<(), RatingError>)
    requires
        old(db).wf(),
    ensures
        final(db).wf(),
        done is Err <==> mod_id is None,
        mod_id is None ==> final(db)@ == old(db)@,
        mod_id matches Some(id) ==> final(db)@ == old(db)@.with_rating(
            RatingRecord { user_id, mod_id: id, rating },
        ),
{
    match mod_id {
        None => Err(RatingError::BadModUuid),
        Some(id) => {
            db.insert_mod_rating(id, rating, user_id);
            Ok(())
        },
    }
}

/// Records a rating that a user posted: the mod's identifier is read as a
/// UUID, and a rating of anything else is refused.
pub fn post_rating(db: &mut Database, mod_id: &str, rating: Rating, user_id: i32) -> (done: Result<
    (),
    RatingError,
>)
    requires
        old(db).wf(),
    ensures
        final(db).wf(),
        done is Err <==> parsed_uuid(mod_id@) is None,
        parsed_uuid(mod_id@) is None ==> final(db)@ == old(db)@,
        parsed_uuid(mod_id@) matches Some(id) ==> final(db)@ == old(db)@.with_rating(
            RatingRecord { user_id, mod_id: id, rating },
        ),
{
    let id = try_parse_uuid(mod_id);
    record_rating(db, id, rating, user_id)
}

/// The most mods that the page of liked mods lists.
pub const RATED_MODS_LIMIT: i16 = 100;

/// The mods that the user likes, for the page that lists them.
pub fn rated_mods(db: &Database, user_id: i32) -> (mods: Vec<Mod>)
    requires
        db.wf(),
    ensures
        db@.is_rated_list(Rating::Like, RATED_MODS_LIMIT as int, user_id, mod_views(mods@)),
{
    match db.get_rated_mods(Rating::Like, RATED_MODS_LIMIT, user_id) {
        Ok(mods) => mods,
        Err(_) => Vec::new(),
    }
}

} // verus!
