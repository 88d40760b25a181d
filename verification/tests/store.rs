use std::collections::HashSet;

use lcmt::chunks::chunk_ranges;
use lcmt::db::{Database, InsertMod, ModQueryOptions, StoreError};
use lcmt::ids::parse_mod_id;
use lcmt::mods::{Category, Mod, Rating};
use lcmt::services::users::UserNoId;
use lcmt::timestamps::{parse_date, CalendarDate, Timestamp};
use time::format_description::well_known::Iso8601;
use time::OffsetDateTime;

const USER: i32 = 1;

fn hashset_of(items: Vec<&str>) -> HashSet<String> {
    items.into_iter().map(|s| s.to_string()).collect()
}

fn names_of(items: Vec<&str>) -> Vec<String> {
    items.into_iter().map(|s| s.to_string()).collect()
}

fn mod_names(mods: Vec<Mod>) -> HashSet<String> {
    mods.into_iter().map(|m| m.name).collect()
}

fn uuid(text: &str) -> u128 {
    parse_mod_id(text).unwrap()
}

fn instant(text: &str) -> Timestamp {
    let moment = OffsetDateTime::parse(text, &Iso8601::DEFAULT).unwrap();
    Timestamp { unix_nanos: moment.unix_timestamp_nanos() }
}

fn category_id(categories: &[Category], name: &str) -> i32 {
    categories.iter().find(|c| c.name == name).unwrap().id
}

fn row(
    number: u128,
    name: &str,
    date: (i32, u8, u8),
    deprecated: bool,
    nsfw: bool,
    category_ids: Vec<i32>,
) -> InsertMod {
    InsertMod {
        uuid4: number,
        name: name.to_string(),
        description: format!("{name} description"),
        icon_url: format!("{name} icon"),
        full_name: format!("owner-{name}"),
        owner: "owner".to_string(),
        package_url: format!("{name} package"),
        updated_date: CalendarDate::new(date.0, date.1, date.2).unwrap(),
        rating: 0,
        is_deprecated: deprecated,
        has_nsfw_content: nsfw,
        category_ids,
    }
}

/// Ten mods in six categories.
fn fixture_rows(categories: &[Category]) -> Vec<InsertMod> {
    let id = |name: &str| category_id(categories, name);
    vec![
        row(1, "1st", (2025, 3, 20), false, false, vec![id("Items"), id("TV")]),
        row(2, "dep-mod", (2025, 3, 19), true, false, vec![id("Items")]),
        row(3, "nsfw-mod", (2025, 3, 18), false, true, vec![id("Items")]),
        row(4, "dep-nsfw", (2025, 3, 17), true, true, vec![id("Misc")]),
        row(5, "5th", (2025, 3, 9), false, false, vec![id("Misc"), id("Suits")]),
        row(6, "6th", (2025, 3, 8), false, false, vec![id("Music")]),
        row(7, "nsfw-2", (2025, 3, 7), false, true, vec![id("Misc")]),
        row(8, "no-category", (2025, 3, 6), false, false, vec![]),
        row(9, "new-update", (2025, 3, 21), false, false, vec![id("Tools")]),
        row(10, "old-mod", (2020, 1, 1), false, false, vec![id("Tools")]),
    ]
}

fn seeded_with_chunks(chunk_size: usize) -> Database {
    let mut db = Database::new();
    db.insert_categories(&names_of(vec!["Items", "Misc", "Music", "Suits", "TV", "Tools"]))
        .unwrap();
    let categories = db.get_categories();
    db.insert_mods(&fixture_rows(&categories), chunk_size);
    db
}

fn seeded() -> Database {
    seeded_with_chunks(150)
}

fn options(ignored: Vec<&str>, limit: i32, deprecated: bool, nsfw: bool) -> ModQueryOptions {
    ModQueryOptions {
        ignored_categories: names_of(ignored),
        limit,
        include_deprecated: deprecated,
        include_nsfw: nsfw,
    }
}

#[test]
fn querying_mods_without_ignored_categories() {
    let db = seeded();
    let query_options = ModQueryOptions {
        ignored_categories: Default::default(),
        limit: 100,
        include_deprecated: true,
        include_nsfw: true,
    };

    let result = db.get_mods(&query_options, USER).unwrap();

    let expected = hashset_of(vec![
        "1st",
        "dep-mod",
        "nsfw-mod",
        "dep-nsfw",
        "5th",
        "6th",
        "nsfw-2",
        "no-category",
        "new-update",
        "old-mod",
    ]);

    let mod_names = mod_names(result);
    assert_eq!(expected, mod_names);
}

#[test]
fn querying_mods_ignored_categories() {
    let db = seeded();
    let query_options = ModQueryOptions {
        ignored_categories: names_of(vec!["Items", "Misc"]),
        limit: 100,
        include_deprecated: true,
        include_nsfw: true,
    };

    let result = db.get_mods(&query_options, USER).unwrap();

    let expected = hashset_of(vec!["6th", "no-category", "new-update", "old-mod"]);

    let mod_names = mod_names(result);
    assert_eq!(expected, mod_names);
}

#[test]
fn querying_mods_allowing_deprecated() {
    let db = seeded();
    let query_options = ModQueryOptions {
        ignored_categories: Default::default(),
        limit: 100,
        include_deprecated: true,
        include_nsfw: false,
    };

    let result = db.get_mods(&query_options, USER).unwrap();

    let expected = hashset_of(vec![
        "1st",
        "dep-mod",
        "5th",
        "6th",
        "no-category",
        "new-update",
        "old-mod",
    ]);

    let mod_names = mod_names(result);
    assert_eq!(expected, mod_names);
}

#[test]
fn querying_non_deprecated_mods() {
    let db = seeded();
    let query_options = ModQueryOptions {
        ignored_categories: Default::default(),
        limit: 100,
        include_deprecated: false,
        include_nsfw: false,
    };

    let result = db.get_mods(&query_options, USER).unwrap();

    let expected = hashset_of(vec!["1st", "5th", "6th", "no-category", "new-update", "old-mod"]);

    let mod_names = mod_names(result);
    assert_eq!(expected, mod_names);
}

#[test]
fn querying_non_deprecated_mods_ignoring_categories() {
    let db = seeded();
    let query_options = ModQueryOptions {
        ignored_categories: names_of(vec!["Music", "Suits"]),
        limit: 100,
        include_deprecated: false,
        include_nsfw: false,
    };

    let result = db.get_mods(&query_options, USER).unwrap();

    let expected = hashset_of(vec!["1st", "no-category", "new-update", "old-mod"]);

    let mod_names = mod_names(result);
    assert_eq!(expected, mod_names);
}

#[test]
fn querying_non_deprecated_nswf_mods_ignoring_categories() {
    let db = seeded();
    let query_options = ModQueryOptions {
        ignored_categories: names_of(vec!["TV", "Suits", "Misc"]),
        limit: 100,
        include_deprecated: false,
        include_nsfw: true,
    };

    let result = db.get_mods(&query_options, USER).unwrap();

    let expected = hashset_of(vec!["nsfw-mod", "6th", "no-category", "new-update", "old-mod"]);

    let mod_names = mod_names(result);
    assert_eq!(expected, mod_names);
}

#[test]
fn querying_mods_most_recently_updated_is_first() {
    let db = seeded();
    let query_options = ModQueryOptions {
        ignored_categories: Default::default(),
        limit: 4,
        include_deprecated: false,
        include_nsfw: false,
    };

    let result = db.get_mods(&query_options, USER).unwrap();

    let expected = vec!["new-update", "1st", "5th", "6th"];

    let mods = result.iter().map(|m| m.name.as_str()).collect::<Vec<_>>();
    assert_eq!(expected, mods);
}

#[test]
fn get_mod_import_date_from_empty_database() {
    let db = Database::new();

    let date = db.latest_mod_import_date();
    assert_eq!(None, date);
}

#[test]
fn set_and_get_mod_import_date() {
    let mut db = Database::new();

    let timestamp = instant("2025-03-22T12:45:56.001122Z");
    db.set_mods_imported_date(timestamp);

    let date = db.latest_mod_import_date().unwrap();
    assert_eq!(timestamp, date);
}

#[test]
fn set_mod_import_date_multiple_times() {
    let mut db = Database::new();

    let old = instant("2000-01-01T00:00:00.000000Z");
    let mid = instant("2002-02-22T00:00:00.000000Z");
    let new = instant("2025-03-03T03:03:03.000000Z");

    db.set_mods_imported_date(old);
    db.set_mods_imported_date(mid);
    db.set_mods_imported_date(new);

    let date = db.latest_mod_import_date().unwrap();
    assert_eq!(new, date);
}

#[test]
fn insert_and_query_categories() {
    let mut db = Database::new();
    let categories = names_of(vec!["Foo", "Bar", "Baz", "Cat", "Dog"]);
    db.insert_categories(&categories).unwrap();

    let result = db.get_categories().into_iter().map(|ctg| ctg.name).collect::<HashSet<_>>();
    let expected = hashset_of(vec!["Foo", "Bar", "Baz", "Cat", "Dog"]);

    assert_eq!(expected, result);
}

#[test]
fn inserting_and_querying_mods() {
    let null = "".to_string();

    let mut db = Database::new();
    db.insert_categories(&names_of(vec!["first", "second", "third"])).unwrap();
    let categories = db.get_categories();

    let m1 = Mod {
        name: "mod-1".to_string(),
        owner: "cat".to_string(),
        description: "first mod".to_string(),
        icon_url: "icon-1 url".to_string(),
        package_url: "package-1 url".to_string(),
        id: uuid("aaaaaaaa-aaaa-aaaa-aaaa-aaaaaaaaaaaa"),
        categories: names_of(vec!["first", "second", "third"]),
    };
    let date_1 = parse_date("2025-03-22T19:59:59.012345Z").unwrap();

    let m2 = Mod {
        name: "mod-2".to_string(),
        owner: "dog".to_string(),
        description: "second mod".to_string(),
        icon_url: "icon-2 url".to_string(),
        package_url: "package-2 url".to_string(),
        id: uuid("bbbbbbbb-bbbb-bbbb-bbbb-bbbbbbbbbbbb"),
        categories: vec![],
    };
    let date_2 = parse_date("2025-03-22T22:22:22.222222Z").unwrap();

    let mods = vec![
        InsertMod {
            uuid4: m1.id,
            name: m1.name.clone(),
            description: m1.description.clone(),
            icon_url: m1.icon_url.clone(),
            owner: m1.owner.clone(),
            package_url: m1.package_url.clone(),
            full_name: null.clone(),
            updated_date: date_1,
            rating: 12345,
            is_deprecated: false,
            has_nsfw_content: false,
            category_ids: vec![
                categories.get(0).unwrap().id,
                categories.get(1).unwrap().id,
                categories.get(2).unwrap().id,
            ],
        },
        InsertMod {
            uuid4: m2.id,
            name: m2.name.clone(),
            description: m2.description.clone(),
            icon_url: m2.icon_url.clone(),
            owner: m2.owner.clone(),
            package_url: m2.package_url.clone(),
            full_name: null.clone(),
            updated_date: date_2,
            rating: 54321,
            is_deprecated: true,
            has_nsfw_content: true,
            category_ids: vec![],
        },
    ];

    db.insert_mods(&mods, 150);

    let query_options = ModQueryOptions {
        ignored_categories: Default::default(),
        limit: 100,
        include_deprecated: true,
        include_nsfw: true,
    };

    let mut result = db.get_mods(&query_options, USER).unwrap();
    result.sort_by(|a, b| a.name.cmp(&b.name));

    let mut expected = vec![m1, m2];
    expected.sort_by(|a, b| a.name.cmp(&b.name));

    assert_eq!(expected, result);
}

#[test]
fn rated_mods_are_omitted_from_queries() {
    let mut db = seeded();

    db.insert_mod_rating(uuid("00000000-0000-0000-0000-000000000005"), Rating::Like, USER);
    db.insert_mod_rating(uuid("00000000-0000-0000-0000-000000000006"), Rating::Dislike, USER);

    let query_options = ModQueryOptions {
        ignored_categories: Default::default(),
        limit: 100,
        include_deprecated: true,
        include_nsfw: true,
    };

    let result = db.get_mods(&query_options, USER).unwrap();

    let mods = mod_names(result);
    let expected = hashset_of(vec![
        "1st",
        "dep-mod",
        "nsfw-mod",
        "dep-nsfw",
        "nsfw-2",
        "no-category",
        "new-update",
        "old-mod",
    ]);

    assert_eq!(expected, mods);
}

#[test]
fn querying_rated_mods() {
    let mut db = seeded();

    db.insert_mod_rating(uuid("00000000-0000-0000-0000-000000000002"), Rating::Like, USER);
    db.insert_mod_rating(uuid("00000000-0000-0000-0000-000000000003"), Rating::Dislike, USER);
    db.insert_mod_rating(uuid("00000000-0000-0000-0000-000000000004"), Rating::Dislike, USER);
    db.insert_mod_rating(uuid("00000000-0000-0000-0000-000000000005"), Rating::Like, USER);

    let result = db.get_rated_mods(Rating::Like, 100, USER).unwrap();

    let mods = mod_names(result);
    let expected = hashset_of(vec!["dep-mod", "5th"]);

    assert_eq!(expected, mods);
}

#[test]
fn insert_and_find_users() {
    let mut db = Database::new();

    let first = UserNoId { username: "First".to_string(), password_hash: "aaaa".to_string() };

    let second = UserNoId { username: "Second".to_string(), password_hash: "bbbb".to_string() };

    let third = UserNoId { username: "Third".to_string(), password_hash: "cccc".to_string() };

    db.insert_user(&first).unwrap();
    db.insert_user(&second).unwrap();
    db.insert_user(&third).unwrap();

    let result = db.find_user("Second").expect("No user found");
    assert_eq!(result.username, "Second");
    assert_eq!(result.password_hash, "bbbb");
}

#[test]
fn inserting_non_unique_user() {
    let mut db = Database::new();

    let first = UserNoId { username: "Taken".to_string(), password_hash: "aaaa".to_string() };

    let second = UserNoId { username: "Taken".to_string(), password_hash: "bbbb".to_string() };

    let _ = db.insert_user(&first).unwrap();

    let result = db.insert_user(&second);
    assert!(result.is_err());
}

#[test]
fn a_taken_name_is_refused_and_nothing_changes() {
    let mut db = Database::new();
    let first = UserNoId { username: "Taken".to_string(), password_hash: "aaaa".to_string() };
    let second = UserNoId { username: "Taken".to_string(), password_hash: "bbbb".to_string() };
    db.insert_user(&first).unwrap();
    assert_eq!(db.insert_user(&second), Err(StoreError::UsernameTaken));
    assert_eq!(db.find_user("Taken").unwrap().password_hash, "aaaa");
    assert!(db.find_user_by_id(2).is_none());
}

#[test]
fn users_get_identifiers_in_order_and_no_privileges() {
    let mut db = Database::new();
    for name in ["a", "b", "c"] {
        db.insert_user(&UserNoId { username: name.to_string(), password_hash: "h".to_string() })
            .unwrap();
    }
    let b = db.find_user("b").unwrap();
    assert_eq!(b.id, 2);
    assert!(!b.has_import_privileges);
    assert_eq!(db.find_user_by_id(3).unwrap().username, "c");
    assert!(db.find_user_by_id(0).is_none());
    assert!(db.find_user_by_id(4).is_none());
    assert!(db.find_user("d").is_none());
}

#[test]
fn a_negative_limit_is_refused() {
    let db = seeded();
    assert_eq!(db.get_mods(&options(vec![], -1, true, true), USER), Err(StoreError::NegativeLimit));
    assert_eq!(db.get_rated_mods(Rating::Like, -1, USER), Err(StoreError::NegativeLimit));
    assert_eq!(db.get_mods(&options(vec![], 0, true, true), USER), Ok(vec![]));
}

#[test]
fn the_default_options_hide_flagged_mods_and_stop_at_twenty() {
    let defaults = ModQueryOptions::default();
    assert_eq!(defaults.limit, 20);
    assert!(!defaults.include_deprecated);
    assert!(!defaults.include_nsfw);
    assert!(defaults.ignored_categories.is_empty());
    let db = seeded();
    let names: Vec<String> =
        db.get_mods(&defaults, USER).unwrap().into_iter().map(|m| m.name).collect();
    assert_eq!(names, vec!["new-update", "1st", "5th", "6th", "no-category", "old-mod"]);
}

#[test]
fn a_rating_hides_the_mod_from_its_user_only() {
    let mut db = seeded();
    db.insert_mod_rating(1, Rating::Like, 7);
    db.insert_mod_rating(9, Rating::Dislike, 7);
    let all = options(vec![], 100, true, true);
    let for_seven = mod_names(db.get_mods(&all, 7).unwrap());
    let for_eight = mod_names(db.get_mods(&all, 8).unwrap());
    assert!(!for_seven.contains("1st"));
    assert!(!for_seven.contains("new-update"));
    assert_eq!(for_seven.len(), 8);
    assert!(for_eight.contains("1st"));
    assert!(for_eight.contains("new-update"));
    assert_eq!(for_eight.len(), 10);
}

#[test]
fn rating_twice_is_recorded_twice() {
    let mut db = seeded();
    db.insert_mod_rating(5, Rating::Like, USER);
    db.insert_mod_rating(5, Rating::Like, USER);
    let liked: Vec<String> =
        db.get_rated_mods(Rating::Like, 100, USER).unwrap().into_iter().map(|m| m.name).collect();
    assert_eq!(liked, vec!["5th", "5th"]);
    assert_eq!(db.get_rated_mods(Rating::Like, 1, USER).unwrap().len(), 1);
    assert!(db.get_rated_mods(Rating::Dislike, 100, USER).unwrap().is_empty());
    assert!(db.get_rated_mods(Rating::Like, 100, 2).unwrap().is_empty());
}

#[test]
fn rated_mods_come_in_the_order_of_the_ratings_whatever_their_flags() {
    let mut db = seeded();
    db.insert_mod_rating(4, Rating::Like, USER);
    db.insert_mod_rating(99, Rating::Like, USER);
    db.insert_mod_rating(1, Rating::Dislike, USER);
    db.insert_mod_rating(7, Rating::Like, USER);
    db.insert_mod_rating(4, Rating::Like, 2);
    db.insert_mod_rating(2, Rating::Like, USER);
    let names = |limit: i16| -> Vec<String> {
        db.get_rated_mods(Rating::Like, limit, USER).unwrap().into_iter().map(|m| m.name).collect()
    };
    assert_eq!(names(100), vec!["dep-nsfw", "nsfw-2", "dep-mod"]);
    assert_eq!(names(3), vec!["dep-nsfw", "nsfw-2", "dep-mod"]);
    assert_eq!(names(2), vec!["dep-nsfw", "nsfw-2"]);
    assert_eq!(names(0), Vec::<String>::new());
}

#[test]
fn known_categories_take_no_identifier() {
    let mut db = seeded();
    let before = db.get_categories();
    assert_eq!(db.insert_categories(&names_of(vec!["Items", "Misc", "Items", "TV"])), Ok(()));
    assert_eq!(db.get_categories(), before);
}

#[test]
fn a_mod_comes_with_the_names_of_its_categories() {
    let db = seeded();
    let feed = db.get_mods(&options(vec![], 100, true, true), USER).unwrap();
    let fifth = feed.iter().find(|m| m.name == "5th").unwrap();
    assert_eq!(fifth.categories, vec!["Misc", "Suits"]);
    assert_eq!(fifth.id, 5);
    assert_eq!(fifth.owner, "owner");
    assert_eq!(fifth.description, "5th description");
    assert_eq!(fifth.icon_url, "5th icon");
    assert_eq!(fifth.package_url, "5th package");
    let bare = feed.iter().find(|m| m.name == "no-category").unwrap();
    assert!(bare.categories.is_empty());
}

fn state(db: &Database) -> (Vec<Mod>, Vec<Category>) {
    (db.get_mods(&options(vec![], 1000, true, true), USER).unwrap(), db.get_categories())
}

#[test]
fn importing_the_same_catalog_twice_changes_nothing() {
    let mut db = seeded();
    let once = state(&db);
    let categories = db.get_categories();
    db.insert_mods(&fixture_rows(&categories), 150);
    assert_eq!(state(&db), once);
    db.insert_mods(&fixture_rows(&categories), 3);
    assert_eq!(state(&db), once);
}

#[test]
fn the_chunk_size_does_not_show() {
    let unchunked = state(&seeded_with_chunks(1000));
    for chunk_size in [1, 2, 3, 7, 10, 11] {
        assert_eq!(state(&seeded_with_chunks(chunk_size)), unchunked);
    }
}

#[test]
fn an_import_rebuilds_the_links_and_overwrites_rows() {
    let mut db = seeded();
    let categories = db.get_categories();
    let music = category_id(&categories, "Music");
    let mut changed = row(5, "fifth", (2025, 3, 22), true, false, vec![music]);
    changed.owner = "someone".to_string();
    db.insert_mods(&vec![changed], 150);
    let feed = db.get_mods(&options(vec![], 100, true, true), USER).unwrap();
    assert_eq!(feed.len(), 10);
    assert_eq!(feed[0].name, "fifth");
    assert_eq!(feed[0].owner, "someone");
    assert_eq!(feed[0].categories, vec!["Music"]);
    for m in &feed[1..] {
        assert!(m.categories.is_empty());
    }
    let hidden = db.get_mods(&options(vec![], 100, false, true), USER).unwrap();
    assert!(!mod_names(hidden).contains("fifth"));
}

#[test]
fn the_last_row_of_an_identifier_wins() {
    let mut db = Database::new();
    let rows = vec![
        row(1, "first", (2025, 1, 1), false, false, vec![]),
        row(2, "other", (2025, 1, 2), false, false, vec![]),
        row(1, "second", (2025, 1, 3), false, false, vec![]),
    ];
    db.insert_mods(&rows, 1);
    let names: Vec<String> = db
        .get_mods(&options(vec![], 100, true, true), USER)
        .unwrap()
        .into_iter()
        .map(|m| m.name)
        .collect();
    assert_eq!(names, vec!["second", "other"]);
}

#[test]
fn categories_stay_when_a_catalog_lacks_them() {
    let mut db = seeded();
    let before = db.get_categories();
    db.insert_mods(&vec![row(11, "lonely", (2025, 1, 1), false, false, vec![])], 150);
    assert_eq!(db.get_categories(), before);
    db.insert_categories(&names_of(vec!["Misc", "New", "Items", "New"])).unwrap();
    let after = db.get_categories();
    assert_eq!(after[..before.len()], before[..]);
    assert_eq!(after.len(), before.len() + 1);
    assert_eq!(after[before.len()], Category { name: "New".to_string(), id: 7 });
}

#[test]
fn mods_of_one_day_keep_the_order_in_which_they_were_stored() {
    let mut db = Database::new();
    let rows = vec![
        row(3, "c", (2025, 1, 1), false, false, vec![]),
        row(1, "a", (2025, 1, 1), false, false, vec![]),
        row(2, "b", (2025, 1, 2), false, false, vec![]),
    ];
    db.insert_mods(&rows, 150);
    let names: Vec<String> = db
        .get_mods(&options(vec![], 100, true, true), USER)
        .unwrap()
        .into_iter()
        .map(|m| m.name)
        .collect();
    assert_eq!(names, vec!["b", "c", "a"]);
}

#[test]
fn chunk_ranges_cut_evenly_and_leave_a_rest() {
    assert_eq!(chunk_ranges(0, 3), vec![]);
    assert_eq!(chunk_ranges(3, 3), vec![(0, 3)]);
    assert_eq!(chunk_ranges(7, 3), vec![(0, 3), (3, 6), (6, 7)]);
    assert_eq!(chunk_ranges(2, 150), vec![(0, 2)]);
    assert_eq!(chunk_ranges(3, 1), vec![(0, 1), (1, 2), (2, 3)]);
}
