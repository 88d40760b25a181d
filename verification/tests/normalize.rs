use lcmt::db::{Database, ModQueryOptions, StoreError};
use lcmt::ids::parse_mod_id;
use lcmt::mods::{
    category_index, category_names, insertable_mods, save_mods_to_db, Category, ModRaw,
    ModVersion, NormalizeError, Rating, ResponseHandler,
};
use lcmt::timestamps::{parse_date, CalendarDate};

fn version(description: &str, icon: &str) -> ModVersion {
    ModVersion {
        name: "version".to_string(),
        full_name: "owner-version".to_string(),
        description: description.to_string(),
        icon: icon.to_string(),
        version_number: "1.0.0".to_string(),
        dependencies: vec![],
        download_url: "download".to_string(),
        downloads: 3,
        date_created: "2025-01-01T00:00:00.000000Z".to_string(),
        website_url: "website".to_string(),
        is_active: true,
        uuid4: "cccccccc-cccc-cccc-cccc-cccccccccccc".to_string(),
        file_size: 10,
    }
}

fn raw(name: &str, uuid4: &str, date_updated: &str, categories: Vec<&str>) -> ModRaw {
    ModRaw {
        name: name.to_string(),
        full_name: format!("owner-{name}"),
        owner: "owner".to_string(),
        package_url: format!("https://example.org/{name}"),
        donation_link: None,
        date_created: "2024-01-01T00:00:00.000000Z".to_string(),
        date_updated: date_updated.to_string(),
        uuid4: uuid4.to_string(),
        rating_score: 42,
        is_pinned: false,
        is_deprecated: false,
        has_nsfw_content: true,
        categories: categories.into_iter().map(|c| c.to_string()).collect(),
        versions: vec![version("newest", "newest icon"), version("older", "older icon")],
    }
}

fn categories(names: Vec<&str>) -> Vec<Category> {
    names
        .into_iter()
        .enumerate()
        .map(|(i, name)| Category { name: name.to_string(), id: i as i32 + 1 })
        .collect()
}

const ID_A: &str = "aaaaaaaa-aaaa-aaaa-aaaa-aaaaaaaaaaaa";
const ID_B: &str = "bbbbbbbb-bbbb-bbbb-bbbb-bbbbbbbbbbbb";
const DATE: &str = "2025-03-22T19:59:59.012345Z";

#[test]
fn a_record_becomes_a_row() {
    let index = category_index(&categories(vec!["Items", "Misc", "Music"]));
    let record = raw("mod", ID_A, DATE, vec!["Music", "Items"]);
    let row = record.to_insertable(&index).unwrap();
    assert_eq!(row.uuid4, 0xaaaaaaaa_aaaa_aaaa_aaaa_aaaaaaaaaaaa);
    assert_eq!(row.name, "mod");
    assert_eq!(row.full_name, "owner-mod");
    assert_eq!(row.owner, "owner");
    assert_eq!(row.package_url, "https://example.org/mod");
    assert_eq!(row.description, "newest");
    assert_eq!(row.icon_url, "newest icon");
    assert_eq!(row.updated_date, CalendarDate::new(2025, 3, 22).unwrap());
    assert_eq!(row.rating, 42);
    assert!(!row.is_deprecated);
    assert!(row.has_nsfw_content);
    assert_eq!(row.category_ids, vec![3, 1]);
}

#[test]
fn a_record_without_versions_gets_a_placeholder() {
    let index = category_index(&categories(vec![]));
    let mut record = raw("mod", ID_A, DATE, vec![]);
    record.versions = vec![];
    let row = record.to_insertable(&index).unwrap();
    assert_eq!(row.description, "<No description available>");
    assert_eq!(row.icon_url, "");
}

#[test]
fn an_unknown_category_is_dropped_and_a_repeated_one_counts_once() {
    let index = category_index(&categories(vec!["Items", "Misc"]));
    let record = raw("mod", ID_A, DATE, vec!["Misc", "Nowhere", "Items", "Misc"]);
    let row = record.to_insertable(&index).unwrap();
    assert_eq!(row.category_ids, vec![2, 1]);
}

#[test]
fn a_bad_identifier_refuses_the_record() {
    let index = category_index(&categories(vec![]));
    let record = raw("mod", "not-a-uuid", DATE, vec![]);
    assert_eq!(record.to_insertable(&index).unwrap_err(), NormalizeError::InvalidUuid);
    let both_bad = raw("mod", "not-a-uuid", "yesterday", vec![]);
    assert_eq!(both_bad.to_insertable(&index).unwrap_err(), NormalizeError::InvalidUuid);
}

#[test]
fn a_bad_date_refuses_the_record() {
    let index = category_index(&categories(vec![]));
    let record = raw("mod", ID_A, "yesterday", vec![]);
    assert_eq!(record.to_insertable(&index).unwrap_err(), NormalizeError::InvalidDate);
}

#[test]
fn insertable_from_takes_what_was_read() {
    let index = category_index(&categories(vec!["Items"]));
    let record = raw("mod", "ignored", "ignored", vec!["Items"]);
    let date = CalendarDate::new(2024, 2, 29).unwrap();
    let row = record.insertable_from(&index, Some(5), Some(date)).unwrap();
    assert_eq!(row.uuid4, 5);
    assert_eq!(row.updated_date, date);
    assert_eq!(row.category_ids, vec![1]);
    assert_eq!(
        record.insertable_from(&index, None, Some(date)).unwrap_err(),
        NormalizeError::InvalidUuid
    );
    assert_eq!(
        record.insertable_from(&index, Some(5), None).unwrap_err(),
        NormalizeError::InvalidDate
    );
}

#[test]
fn one_bad_record_does_not_stop_the_rest() {
    let index = category_index(&categories(vec![]));
    let records = vec![
        raw("good-1", ID_A, DATE, vec![]),
        raw("bad-id", "zzz", DATE, vec![]),
        raw("bad-date", ID_B, "2025-13-45", vec![]),
        raw("good-2", ID_B, "2025-03-23", vec![]),
    ];
    let rows = insertable_mods(&records, &index);
    let names: Vec<&str> = rows.iter().map(|r| r.name.as_str()).collect();
    assert_eq!(names, vec!["good-1", "good-2"]);
}

#[test]
fn category_names_are_collected_once_in_order() {
    let records = vec![
        raw("a", ID_A, DATE, vec!["Misc", "Items"]),
        raw("b", ID_B, DATE, vec![]),
        raw("c", ID_B, DATE, vec!["Items", "Music", "Misc", "Music"]),
    ];
    assert_eq!(category_names(&records), vec!["Misc", "Items", "Music"]);
    assert!(category_names(&vec![]).is_empty());
}

#[test]
fn of_two_categories_with_one_name_the_later_stands() {
    let index = category_index(&vec![
        Category { name: "Items".to_string(), id: 1 },
        Category { name: "Items".to_string(), id: 9 },
    ]);
    let record = raw("mod", ID_A, DATE, vec!["Items"]);
    assert_eq!(record.to_insertable(&index).unwrap().category_ids, vec![9]);
}

fn all() -> ModQueryOptions {
    ModQueryOptions {
        ignored_categories: vec![],
        limit: 100,
        include_deprecated: true,
        include_nsfw: true,
    }
}

#[test]
fn saving_records_adds_categories_and_rows() {
    let mut db = Database::new();
    let records = vec![
        raw("a", ID_A, "2025-03-01", vec!["Misc", "Items"]),
        raw("broken", "???", "2025-03-02", vec!["Music"]),
        raw("b", ID_B, "2025-03-03", vec!["Items"]),
    ];
    assert_eq!(save_mods_to_db(&mut db, &records, 1), Ok::<(), StoreError>(()));
    let names: Vec<String> = db.get_categories().into_iter().map(|c| c.name).collect();
    assert_eq!(names, vec!["Misc", "Items", "Music"]);
    let feed = db.get_mods(&all(), 1).unwrap();
    assert_eq!(feed.len(), 2);
    assert_eq!(feed[0].name, "b");
    assert_eq!(feed[0].categories, vec!["Items"]);
    assert_eq!(feed[1].name, "a");
    assert_eq!(feed[1].categories, vec!["Misc", "Items"]);
    assert_eq!(feed[1].id, parse_mod_id(ID_A).unwrap());
}

#[test]
fn saving_the_same_records_twice_changes_nothing() {
    let mut db = Database::new();
    let records = vec![
        raw("a", ID_A, "2025-03-01", vec!["Misc", "Items"]),
        raw("b", ID_B, "2025-03-03", vec!["Items"]),
    ];
    save_mods_to_db(&mut db, &records, 2).unwrap();
    let feed = db.get_mods(&all(), 1).unwrap();
    let categories = db.get_categories();
    save_mods_to_db(&mut db, &records, 1).unwrap();
    assert_eq!(db.get_mods(&all(), 1).unwrap(), feed);
    assert_eq!(db.get_categories(), categories);
}

#[test]
fn a_later_catalog_keeps_the_categories_and_ratings_of_an_earlier_one() {
    let mut db = Database::new();
    save_mods_to_db(&mut db, &vec![raw("a", ID_A, "2025-03-01", vec!["Misc"])], 5).unwrap();
    db.insert_mod_rating(parse_mod_id(ID_A).unwrap(), Rating::Like, 1);
    save_mods_to_db(&mut db, &vec![raw("b", ID_B, "2025-03-02", vec!["Items"])], 5).unwrap();
    let names: Vec<String> = db.get_categories().into_iter().map(|c| c.name).collect();
    assert_eq!(names, vec!["Misc", "Items"]);
    let for_rater: Vec<String> = db.get_mods(&all(), 1).unwrap().into_iter().map(|m| m.name).collect();
    assert_eq!(for_rater, vec!["b"]);
    let for_other = db.get_mods(&all(), 2).unwrap();
    assert_eq!(for_other.len(), 2);
    assert_eq!(for_other[1].name, "a");
    assert!(for_other[1].categories.is_empty());
}

#[test]
fn dates_are_read_as_iso_8601() {
    assert_eq!(parse_date("2025-03-22T19:59:59.012345Z"), CalendarDate::new(2025, 3, 22));
    assert_eq!(parse_date("2024-02-29"), CalendarDate::new(2024, 2, 29));
    assert_eq!(parse_date("2025-02-29"), None);
    assert_eq!(parse_date("22.03.2025"), None);
    assert_eq!(parse_date(""), None);
    let date = parse_date("2025-03-22").unwrap();
    assert_eq!((date.year(), date.month(), date.day()), (2025, 3, 22));
}

#[test]
fn calendar_dates_know_the_calendar() {
    assert!(CalendarDate::new(2024, 2, 29).is_some());
    assert!(CalendarDate::new(2023, 2, 29).is_none());
    assert!(CalendarDate::new(1900, 2, 29).is_none());
    assert!(CalendarDate::new(2000, 2, 29).is_some());
    assert!(CalendarDate::new(-4, 2, 29).is_some());
    assert!(CalendarDate::new(2025, 4, 31).is_none());
    assert!(CalendarDate::new(2025, 12, 31).is_some());
    assert!(CalendarDate::new(2025, 0, 1).is_none());
    assert!(CalendarDate::new(2025, 13, 1).is_none());
    assert!(CalendarDate::new(2025, 1, 0).is_none());
    assert!(CalendarDate::new(10000, 1, 1).is_none());
    assert!(CalendarDate::new(-9999, 1, 1).is_some());
    let earlier = CalendarDate::new(2025, 3, 9).unwrap();
    let later = CalendarDate::new(2025, 3, 20).unwrap();
    assert!(later.is_after(&earlier));
    assert!(!earlier.is_after(&later));
    assert!(!earlier.is_after(&earlier));
    assert!(CalendarDate::new(2025, 1, 1).unwrap().is_after(&CalendarDate::new(2024, 12, 31).unwrap()));
}

#[test]
fn identifiers_are_read_as_uuids() {
    assert_eq!(parse_mod_id("00000000-0000-0000-0000-000000000005"), Some(5));
    assert_eq!(
        parse_mod_id("aaaaaaaa-aaaa-aaaa-aaaa-aaaaaaaaaaaa"),
        Some(0xaaaaaaaa_aaaa_aaaa_aaaa_aaaaaaaaaaaa)
    );
    assert_eq!(parse_mod_id("0000000000000000000000000000000a"), Some(10));
    assert_eq!(parse_mod_id("five"), None);
    assert_eq!(parse_mod_id(""), None);
}

#[test]
fn the_response_handler_collects_the_body() {
    let mut handler = ResponseHandler::new();
    assert_eq!(handler.write(b"[{\"na"), 5);
    assert_eq!(handler.write(b""), 0);
    assert_eq!(handler.write("me\": \"é\"}]".as_bytes()), 11);
    assert_eq!(handler.to_string().unwrap(), "[{\"name\": \"é\"}]");
    assert_eq!(ResponseHandler::new().to_string().unwrap(), "");
}

#[test]
fn a_body_that_is_not_utf8_is_refused() {
    let mut handler = ResponseHandler::new();
    handler.write(&[0x66, 0xff, 0x6f]);
    assert!(handler.to_string().is_err());
}

#[test]
fn ratings_have_names() {
    assert_eq!(Rating::Like.to_string(), "Like");
    assert_eq!(Rating::Dislike.to_string(), "Dislike");
}
