use lcmt::db::{Database, InsertMod, StoreError};
use lcmt::middlewares::privilege_validator::{Privilege, PrivilegeValidator};
use lcmt::middlewares::token_validator::{TokenDecision, TokenValidator};
use lcmt::mods::{Category, Mod, Rating};
use lcmt::services::header_redirect_to;
use lcmt::services::import_mods::{latest_import_string, latest_import_text, time_since_text};
use lcmt::services::ratings::{
    first_mod, post_rating, rated_mods, rating_page, record_rating, RatingError, RatingPage,
};
use lcmt::services::settings::{category_checkboxes, CategoryCheckbox, Settings, SETTINGS_COOKIE};
use lcmt::services::users::{TokenClaims, User};
use lcmt::timestamps::{CalendarDate, Timestamp};

const SECOND: i128 = 1_000_000_000;
const MINUTE: i128 = 60 * SECOND;
const HOUR: i128 = 60 * MINUTE;
const DAY: i128 = 24 * HOUR;

/// 2025-03-22 12:45:56.001122 UTC.
const IMPORTED: i128 = 1_742_647_556_001_122_000;

fn at(unix_nanos: i128) -> Timestamp {
    Timestamp { unix_nanos }
}

fn row(number: u128, name: &str, day: u8, deprecated: bool, category_ids: Vec<i32>) -> InsertMod {
    InsertMod {
        uuid4: number,
        name: name.to_string(),
        description: "description".to_string(),
        icon_url: "icon".to_string(),
        full_name: "full name".to_string(),
        owner: "owner".to_string(),
        package_url: "package".to_string(),
        updated_date: CalendarDate::new(2025, 3, day).unwrap(),
        rating: 0,
        is_deprecated: deprecated,
        has_nsfw_content: false,
        category_ids,
    }
}

fn seeded() -> Database {
    let mut db = Database::new();
    db.insert_categories(&vec!["Items".to_string(), "Misc".to_string()]).unwrap();
    let rows = vec![
        row(1, "old", 1, false, vec![1]),
        row(2, "newest-deprecated", 9, true, vec![]),
        row(3, "new", 5, false, vec![2]),
    ];
    db.insert_mods(&rows, 150);
    db
}

#[test]
fn never_imported() {
    assert_eq!(latest_import_string(None, at(IMPORTED)), "Never");
    assert_eq!(latest_import_text(None, at(0), Some("ignored".to_string())), "Never");
}

#[test]
fn the_last_import_is_printed_to_the_minute() {
    let date = Some(at(IMPORTED));
    assert_eq!(latest_import_string(date, at(IMPORTED)), "2025-03-22 12:45UTC (just now)");
    assert_eq!(
        latest_import_string(date, at(IMPORTED + 2 * DAY + 3 * HOUR)),
        "2025-03-22 12:45UTC (2 days ago)"
    );
    assert_eq!(
        latest_import_string(Some(at(0)), at(7 * MINUTE)),
        "1970-01-01 00:00UTC (7 minutes ago)"
    );
    assert_eq!(
        latest_import_string(Some(at(-1)), at(5 * HOUR)),
        "1969-12-31 23:59UTC (5 hours ago)"
    );
}

#[test]
fn an_instant_that_cannot_be_printed_gives_dashes() {
    assert_eq!(latest_import_string(Some(at(i128::MAX)), at(0)), "---");
    assert_eq!(latest_import_string(Some(at(i128::MIN)), at(0)), "---");
    assert_eq!(latest_import_text(Some(at(0)), at(DAY), None), "---");
}

#[test]
fn the_printed_instant_is_followed_by_the_time_since() {
    assert_eq!(
        latest_import_text(Some(at(0)), at(DAY), Some("then".to_string())),
        "then (1 days ago)"
    );
}

#[test]
fn time_since_counts_days_then_hours_then_minutes() {
    let since = |elapsed: i128| time_since_text(at(1_000), at(1_000 + elapsed));
    assert_eq!(since(-DAY), "just now");
    assert_eq!(since(0), "just now");
    assert_eq!(since(5 * MINUTE - 1), "just now");
    assert_eq!(since(5 * MINUTE), "5 minutes ago");
    assert_eq!(since(HOUR - 1), "59 minutes ago");
    assert_eq!(since(HOUR), "1 hours ago");
    assert_eq!(since(DAY - 1), "23 hours ago");
    assert_eq!(since(DAY), "1 days ago");
    assert_eq!(since(400 * DAY + HOUR), "400 days ago");
    assert_eq!(time_since_text(at(i128::MIN), at(i128::MAX)), "3938453320844195178974243 days ago");
    assert_eq!(time_since_text(at(i128::MAX), at(i128::MIN)), "just now");
    assert_eq!(time_since_text(at(-DAY), at(DAY)), "2 days ago");
}

#[test]
fn the_redirect_header_names_the_target() {
    assert_eq!(header_redirect_to("/rate"), "0; url=/rate");
    assert_eq!(header_redirect_to(""), "0; url=");
}

#[test]
fn settings_become_query_options() {
    let settings = Settings {
        excluded_category: vec!["Items".to_string(), "TV".to_string()],
        include_nsfw: true,
        include_deprecated: false,
    };
    let options = settings.query_options(1);
    assert_eq!(options.ignored_categories, vec!["Items", "TV"]);
    assert_eq!(options.limit, 1);
    assert!(options.include_nsfw);
    assert!(!options.include_deprecated);
    let defaults = Settings::default();
    assert!(defaults.excluded_category.is_empty());
    assert!(!defaults.include_nsfw);
    assert!(!defaults.include_deprecated);
    assert_eq!(SETTINGS_COOKIE, "lcmt-settings");
}

#[test]
fn excluded_categories_are_ticked() {
    let categories = vec![
        Category { name: "Items".to_string(), id: 1 },
        Category { name: "Misc".to_string(), id: 2 },
    ];
    let settings = Settings {
        excluded_category: vec!["Misc".to_string(), "Gone".to_string()],
        include_nsfw: false,
        include_deprecated: false,
    };
    let boxes = category_checkboxes(&categories, &settings);
    assert_eq!(boxes.len(), 2);
    assert_eq!((boxes[0].name.as_str(), boxes[0].id, boxes[0].checked), ("Items", 1, false));
    assert_eq!((boxes[1].name.as_str(), boxes[1].id, boxes[1].checked), ("Misc", 2, true));
    let single = CategoryCheckbox::new(Category { name: "TV".to_string(), id: 5 }, true);
    assert_eq!((single.name.as_str(), single.id, single.checked), ("TV", 5, true));
}

#[test]
fn the_rating_page_shows_the_most_recent_mod_left() {
    let mut db = seeded();
    let settings = Settings::default();
    let (page, options) = rating_page(&db, &settings, 1);
    assert_eq!(options.limit, 1);
    assert!(matches!(&page, RatingPage::Show(m) if m.name == "new" && m.categories == vec!["Misc"]));
    db.insert_mod_rating(3, Rating::Dislike, 1);
    assert!(matches!(rating_page(&db, &settings, 1).0, RatingPage::Show(m) if m.name == "old"));
    assert!(matches!(rating_page(&db, &settings, 2).0, RatingPage::Show(m) if m.name == "new"));
    let everything =
        Settings { excluded_category: vec![], include_nsfw: true, include_deprecated: true };
    assert!(matches!(
        rating_page(&db, &everything, 1).0,
        RatingPage::Show(m) if m.name == "newest-deprecated"
    ));
}

#[test]
fn no_mods_found_is_not_a_database_error() {
    let empty = Database::new();
    assert!(matches!(rating_page(&empty, &Settings::default(), 1).0, RatingPage::NoModsFound));
    let mut db = seeded();
    db.insert_mod_rating(1, Rating::Like, 1);
    db.insert_mod_rating(3, Rating::Like, 1);
    assert!(matches!(rating_page(&db, &Settings::default(), 1).0, RatingPage::NoModsFound));
    assert!(matches!(first_mod(Err(StoreError::NegativeLimit)), RatingPage::DatabaseError));
    assert!(matches!(first_mod(Ok(vec![])), RatingPage::NoModsFound));
    let one = Mod {
        name: "m".to_string(),
        owner: "o".to_string(),
        description: "d".to_string(),
        icon_url: "i".to_string(),
        package_url: "p".to_string(),
        id: 1,
        categories: vec![],
    };
    assert!(matches!(first_mod(Ok(vec![one])), RatingPage::Show(m) if m.id == 1));
}

#[test]
fn a_posted_rating_needs_a_uuid() {
    let mut db = seeded();
    assert_eq!(post_rating(&mut db, "three", Rating::Like, 1), Err(RatingError::BadModUuid));
    assert!(rated_mods(&db, 1).is_empty());
    assert_eq!(
        post_rating(&mut db, "00000000-0000-0000-0000-000000000003", Rating::Like, 1),
        Ok(())
    );
    assert_eq!(record_rating(&mut db, Some(1), Rating::Dislike, 1), Ok(()));
    assert_eq!(record_rating(&mut db, None, Rating::Like, 1), Err(RatingError::BadModUuid));
    let liked: Vec<String> = rated_mods(&db, 1).into_iter().map(|m| m.name).collect();
    assert_eq!(liked, vec!["new"]);
    assert!(rated_mods(&db, 2).is_empty());
}

#[test]
fn only_admin_may_ask_for_an_import() {
    let user = |name: &str| User {
        id: 1,
        username: name.to_string(),
        password_hash: "hash".to_string(),
        has_import_privileges: false,
    };
    let guard = PrivilegeValidator;
    assert_eq!(guard.check(None), Privilege::UnknownUser);
    assert_eq!(guard.check(Some(&user("admin"))), Privilege::Granted);
    assert_eq!(guard.check(Some(&user("Admin"))), Privilege::NotPermitted);
    assert_eq!(guard.check(Some(&user(""))), Privilege::NotPermitted);
}

#[test]
fn a_request_without_a_genuine_token_goes_to_the_login() {
    let guard = TokenValidator;
    assert_eq!(guard.decide(None), TokenDecision::RedirectToLogin);
    assert_eq!(guard.decide(Some(TokenClaims { id: 4 })), TokenDecision::Proceed(TokenClaims { id: 4 }));
}
