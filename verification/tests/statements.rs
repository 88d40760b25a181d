use lcmt::db::{mod_category_links, InsertMod, ModQueryOptions};
use lcmt::sql::{is_bindable, push_bind, push_rows, SqlParam};
use lcmt::statements::{
    insert_categories_statement, insert_links_statement, insert_mods_statements, is_mod_bindable,
    select_mods, upsert_mods_statement, CLEAR_LINKS,
};
use lcmt::text::decimal_string;
use lcmt::timestamps::CalendarDate;
use sqlx::Arguments;

fn names_of(items: Vec<&str>) -> Vec<String> {
    items.into_iter().map(|s| s.to_string()).collect()
}

fn row(number: u128, name: &str, category_ids: Vec<i32>) -> InsertMod {
    InsertMod {
        uuid4: number,
        name: name.to_string(),
        description: "description".to_string(),
        icon_url: "icon".to_string(),
        full_name: "full name".to_string(),
        owner: "owner".to_string(),
        package_url: "package".to_string(),
        updated_date: CalendarDate::new(2025, 3, 22).unwrap(),
        rating: 7,
        is_deprecated: false,
        has_nsfw_content: true,
        category_ids,
    }
}

const SELECT: &str = "SELECT mods.name, mods.owner, mods.description, mods.icon_url, mods.package_url, mods.id, ARRAY(SELECT categories.name FROM mod_category JOIN categories ON categories.id = mod_category.category_id WHERE mod_category.mod_id = mods.id) AS categories FROM mods WHERE mods.id NOT IN (SELECT mod_id FROM ratings WHERE user_id = $1) ";

const IGNORE: &str = "AND mods.id NOT IN (SELECT mod_category.mod_id FROM mod_category JOIN categories ON categories.id = mod_category.category_id WHERE categories.name IN ";

const INSERT_MODS: &str = "INSERT INTO mods (id, name, description, icon_url, full_name, owner, package_url, updated_date, rating, deprecated, nsfw) VALUES ";

const OVERWRITE: &str = " ON CONFLICT(id) DO UPDATE SET name = EXCLUDED.name, description = EXCLUDED.description, icon_url = EXCLUDED.icon_url, full_name = EXCLUDED.full_name, owner = EXCLUDED.owner, package_url = EXCLUDED.package_url, updated_date = EXCLUDED.updated_date, rating = EXCLUDED.rating, deprecated = EXCLUDED.deprecated, nsfw = EXCLUDED.nsfw;";

fn bound(statement: lcmt::sql::Statement) -> usize {
    statement.into_parts().1.len()
}

#[test]
fn the_default_query_filters_flags_and_binds_user_and_limit() {
    let statement = select_mods(&ModQueryOptions::default(), 7);
    let expected = format!(
        "{SELECT}AND mods.deprecated = false AND mods.nsfw = false ORDER BY mods.updated_date DESC LIMIT $2"
    );
    assert_eq!(statement.sql(), expected);
    assert_eq!(bound(statement), 2);
}

#[test]
fn a_query_that_includes_everything_has_no_flag_filter() {
    let options = ModQueryOptions {
        ignored_categories: vec![],
        limit: 100,
        include_deprecated: true,
        include_nsfw: true,
    };
    let statement = select_mods(&options, 7);
    assert_eq!(statement.sql(), format!("{SELECT}ORDER BY mods.updated_date DESC LIMIT $2"));
}

#[test]
fn each_flag_has_its_own_fragment() {
    let mut options = ModQueryOptions::default();
    options.include_deprecated = true;
    assert_eq!(
        select_mods(&options, 1).sql(),
        format!("{SELECT}AND mods.nsfw = false ORDER BY mods.updated_date DESC LIMIT $2")
    );
    options.include_deprecated = false;
    options.include_nsfw = true;
    assert_eq!(
        select_mods(&options, 1).sql(),
        format!("{SELECT}AND mods.deprecated = false ORDER BY mods.updated_date DESC LIMIT $2")
    );
}

#[test]
fn ignored_categories_are_bound_one_by_one() {
    let options = ModQueryOptions {
        ignored_categories: names_of(vec!["Items", "Misc", "x'); DROP TABLE mods; --"]),
        limit: 100,
        include_deprecated: true,
        include_nsfw: false,
    };
    let statement = select_mods(&options, 7);
    let expected = format!(
        "{SELECT}AND mods.nsfw = false {IGNORE} (($2), ($3), ($4)) ) ORDER BY mods.updated_date DESC LIMIT $5"
    );
    assert_eq!(statement.sql(), expected);
    assert_eq!(bound(statement), 5);
}

#[test]
fn one_ignored_category_makes_a_list_of_one() {
    let options = ModQueryOptions {
        ignored_categories: names_of(vec!["Items"]),
        limit: 1,
        include_deprecated: true,
        include_nsfw: true,
    };
    assert_eq!(
        select_mods(&options, 7).sql(),
        format!("{SELECT}{IGNORE} (($2)) ) ORDER BY mods.updated_date DESC LIMIT $3")
    );
}

#[test]
fn categories_are_inserted_or_left() {
    assert!(insert_categories_statement(&vec![]).is_none());
    let statement = insert_categories_statement(&names_of(vec!["Foo", "Bar", "Baz"])).unwrap();
    assert_eq!(
        statement.sql(),
        "INSERT INTO categories(name) VALUES ($1), ($2), ($3) ON CONFLICT DO NOTHING;"
    );
    assert_eq!(bound(statement), 3);
}

#[test]
fn mods_are_inserted_or_overwritten() {
    let mods = vec![row(1, "a", vec![]), row(2, "b", vec![]), row(3, "c", vec![])];
    assert!(upsert_mods_statement(&mods, 1, 1).is_none());
    let one = upsert_mods_statement(&mods, 2, 3).unwrap();
    assert_eq!(
        one.sql(),
        format!("{INSERT_MODS}($1, $2, $3, $4, $5, $6, $7, $8, $9, $10, $11){OVERWRITE}")
    );
    assert_eq!(bound(one), 11);
    let two = upsert_mods_statement(&mods, 0, 2).unwrap();
    assert_eq!(
        two.sql(),
        format!(
            "{INSERT_MODS}($1, $2, $3, $4, $5, $6, $7, $8, $9, $10, $11), ($12, $13, $14, $15, $16, $17, $18, $19, $20, $21, $22){OVERWRITE}"
        )
    );
    assert_eq!(bound(two), 22);
}

#[test]
fn links_are_inserted_or_left() {
    let links = vec![(1, 10), (1, 11), (2, 10)];
    assert!(insert_links_statement(&links, 0, 0).is_none());
    let statement = insert_links_statement(&links, 0, 3).unwrap();
    assert_eq!(
        statement.sql(),
        "INSERT INTO mod_category (mod_id, category_id) VALUES ($1, $2), ($3, $4), ($5, $6) ON CONFLICT DO NOTHING;"
    );
    assert_eq!(bound(statement), 6);
}

#[test]
fn the_links_of_a_catalog_follow_its_rows() {
    let mods = vec![row(1, "a", vec![10, 11]), row(2, "b", vec![]), row(3, "c", vec![10])];
    assert_eq!(mod_category_links(&mods), vec![(1, 10), (1, 11), (3, 10)]);
}

#[test]
fn an_import_clears_the_links_then_writes_rows_then_links_in_chunks() {
    let mods = vec![row(1, "a", vec![10, 11]), row(2, "b", vec![12]), row(3, "c", vec![10])];
    let statements = insert_mods_statements(&mods, 2);
    let texts: Vec<String> = statements.iter().map(|s| s.sql()).collect();
    let row_1 = "($1, $2, $3, $4, $5, $6, $7, $8, $9, $10, $11)";
    let row_2 = "($12, $13, $14, $15, $16, $17, $18, $19, $20, $21, $22)";
    let links = "INSERT INTO mod_category (mod_id, category_id) VALUES ";
    assert_eq!(
        texts,
        vec![
            CLEAR_LINKS.to_string(),
            format!("{INSERT_MODS}{row_1}, {row_2}{OVERWRITE}"),
            format!("{INSERT_MODS}{row_1}{OVERWRITE}"),
            format!("{links}($1, $2), ($3, $4) ON CONFLICT DO NOTHING;"),
            format!("{links}($1, $2), ($3, $4) ON CONFLICT DO NOTHING;"),
        ]
    );
    assert_eq!(texts[0], "DELETE FROM mod_category;");
    let counts: Vec<usize> = statements.into_iter().map(bound).collect();
    assert_eq!(counts, vec![0, 22, 11, 4, 4]);
}

#[test]
fn an_import_of_nothing_only_clears_the_links() {
    let statements = insert_mods_statements(&vec![], 5);
    assert_eq!(statements.len(), 1);
    assert_eq!(statements[0].sql(), "DELETE FROM mod_category;");
}

#[test]
fn the_chunk_size_only_cuts_the_statements() {
    let mods: Vec<InsertMod> = (1..=5).map(|n| row(n, "m", vec![n as i32])).collect();
    assert_eq!(insert_mods_statements(&mods, 1).len(), 11);
    assert_eq!(insert_mods_statements(&mods, 2).len(), 7);
    assert_eq!(insert_mods_statements(&mods, 5).len(), 3);
    assert_eq!(insert_mods_statements(&mods, 150).len(), 3);
}

#[test]
fn rows_of_any_kind_can_be_bound() {
    let mut statement = select_mods(&ModQueryOptions::default(), 1);
    let rows = vec![
        vec![SqlParam::Text("a".to_string()), SqlParam::Int(1), SqlParam::BigInt(2)],
        vec![],
        vec![
            SqlParam::Bool(true),
            SqlParam::Uuid(3),
            SqlParam::Date(CalendarDate::new(2025, 3, 22).unwrap()),
        ],
    ];
    let before = statement.sql();
    push_rows(&mut statement, &rows);
    push_bind(&mut statement, SqlParam::Int(9));
    assert_eq!(statement.sql(), format!("{before}($3, $4, $5), (), ($6, $7, $8)$9"));
    assert_eq!(bound(statement), 9);
}

#[test]
fn a_statement_is_given_up_for_its_text_and_its_values() {
    let statement = insert_categories_statement(&names_of(vec!["Foo", "Bar"])).unwrap();
    let text = statement.sql();
    let (sql, arguments) = statement.into_parts();
    assert_eq!(sql, text);
    assert_eq!(sql, "INSERT INTO categories(name) VALUES ($1), ($2) ON CONFLICT DO NOTHING;");
    assert_eq!(arguments.len(), 2);
}

#[test]
fn short_texts_can_be_bound() {
    assert!(is_bindable(""));
    assert!(is_bindable("Items"));
    assert!(is_mod_bindable(&row(1, "a", vec![])));
}

#[test]
fn numbers_are_written_in_decimal() {
    assert_eq!(decimal_string(0), "0");
    assert_eq!(decimal_string(7), "7");
    assert_eq!(decimal_string(10), "10");
    assert_eq!(decimal_string(1234567890), "1234567890");
    assert_eq!(decimal_string(u128::MAX), "340282366920938463463374607431768211455");
}
