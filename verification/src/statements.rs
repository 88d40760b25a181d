//! The statements that the store is sent: the browsing query, and the inserts
//! of an import, chunk by chunk.

use crate::chunks::chunk_bounds;
use crate::chunks::chunk_ranges;
use crate::chunks::ranges_view;
use crate::db::insert_views;
use crate::db::InsertMod;
use crate::db::InsertModView;
use crate::db::mod_category_links;
use crate::db::ModQueryOptions;
use crate::sql::all_values;
use crate::sql::bindable;
use crate::sql::new_statement;
use crate::sql::placeholder;
use crate::sql::push_bind;
use crate::sql::push_rows;
use crate::sql::push_sql;
use crate::sql::row_values;
use crate::sql::rows_text;
use crate::sql::rows_values;
use crate::sql::SqlParam;
use crate::sql::SqlValue;
use crate::sql::Statement;
use crate::sql::statement_binds;
use crate::sql::statement_sql;
use crate::tables::catalog_links;
use vstd::prelude::*;

verus! {

/// The browsing query up to the placeholder of the user whose ratings hide
/// mods.
pub const SELECT_UNRATED_MODS: &'static str =
    "SELECT mods.name, mods.owner, mods.description, mods.icon_url, mods.package_url, mods.id, ARRAY(SELECT categories.name FROM mod_category JOIN categories ON categories.id = mod_category.category_id WHERE mod_category.mod_id = mods.id) AS categories FROM mods WHERE mods.id NOT IN (SELECT mod_id FROM ratings WHERE user_id = ";

/// The filter that leaves deprecated mods out.
pub const WITHOUT_DEPRECATED: &'static str = "AND mods.deprecated = false ";

/// The filter that leaves mods with adult content out.
pub const WITHOUT_NSFW: &'static str = "AND mods.nsfw = false ";

/// The filter that leaves the mods of some categories out, up to the list of
/// their names.
pub const WITHOUT_CATEGORIES: &'static str =
    "AND mods.id NOT IN (SELECT mod_category.mod_id FROM mod_category JOIN categories ON categories.id = mod_category.category_id WHERE categories.name IN ";

/// The order of the browsing query: the most recently updated mod first.
pub const NEWEST_FIRST: &'static str = "ORDER BY mods.updated_date DESC ";

/// What a statement is: its text, and the values bound to its placeholders.
pub struct StatementView {
    pub sql: Seq<char>,
    pub binds: Seq<SqlValue>,
}

impl View for Statement {
    type V = StatementView;

    open spec fn view(&self) -> StatementView {
        StatementView { sql: statement_sql(*self), binds: statement_binds(*self) }
    }
}

/// One row with one text for each name.
pub open spec fn name_rows(names: Seq<String>) -> Seq<Seq<SqlValue>> {
    names.map_values(|name: String| seq![SqlValue::Text(name@)])
}

/// Whether every string of `texts` can be bound.
pub open spec fn all_bindable(texts: Seq<String>) -> bool {
    forall|i: int| 0 <= i < texts.len() ==> bindable(#[trigger] texts[i]@)
}

/// Rows of one value hold as many values as there are rows.
pub proof fn lemma_name_rows_len(names: Seq<String>)
    ensures
        all_values(name_rows(names)).len() == names.len(),
    decreases names.len(),
{
    if names.len() > 0 {
        lemma_name_rows_len(names.drop_last());
        assert(name_rows(names).drop_last() =~= name_rows(names.drop_last()));
    }
}

/// The rows that bind each name as the one value of a row.
pub fn text_rows(names: &Vec<String>) -> (rows: Vec<Vec<SqlParam>>)
    requires
        all_bindable(names@),
    ensures
        rows_values(rows@) == name_rows(names@),
        forall|i: int, j: int|
            0 <= i < rows@.len() && 0 <= j < rows@[i]@.len() ==> (#[trigger] rows@[i]@[j]).fits(),
{
    let mut rows: Vec<Vec<SqlParam>> = Vec::new();
    let mut i: usize = 0;
    while i < names.len()
        invariant
            i <= names@.len(),
            all_bindable(names@),
            rows@.len() == i,
            forall|k: int|
                0 <= k < i ==> (#[trigger] rows@[k])@.len() == 1 && rows@[k]@[0] == SqlParam::Text(
                    names@[k],
                ),
        decreases names@.len() - i,
    {
        let mut row: Vec<SqlParam> = Vec::new();
        row.push(SqlParam::Text(names[i].clone()));
        rows.push(row);
        i += 1;
    }
    proof {
        assert forall|k: int| 0 <= k < rows@.len() implies rows_values(rows@)[k] == name_rows(
            names@,
        )[k] by {
            assert(row_values(rows@[k]@) =~= seq![SqlValue::Text(names@[k]@)]);
        }
        assert(rows_values(rows@) =~= name_rows(names@));
        assert forall|i: int, j: int|
            0 <= i < rows@.len() && 0 <= j < rows@[i]@.len() implies (
        #[trigger] rows@[i]@[j]).fits() by {
            assert(bindable(names@[i]@));
        }
    }
    rows
}

/// The part of the browsing query that leaves the mods of the named
/// categories out: nothing where no category is named.
pub open spec fn category_filter_sql(names: Seq<String>) -> Seq<char> {
    if names.len() == 0 {
        Seq::empty()
    } else {
        WITHOUT_CATEGORIES@ + " ("@ + rows_text(2, name_rows(names)) + ") "@ + ") "@
    }
}

/// The text of the browsing query: the mods that the user has not rated,
/// without the deprecated ones and those with adult content unless the
/// options include them, without those of an ignored category, the most
/// recently updated first, up to the limit.
pub open spec fn mods_query_sql(options: ModQueryOptions) -> Seq<char> {
    SELECT_UNRATED_MODS@ + placeholder(1) + ") "@ + (if options.include_deprecated {
        Seq::empty()
    } else {
        WITHOUT_DEPRECATED@
    }) + (if options.include_nsfw {
        Seq::empty()
    } else {
        WITHOUT_NSFW@
    }) + category_filter_sql(options.ignored_categories@) + NEWEST_FIRST@ + "LIMIT "@
        + placeholder(options.ignored_categories@.len() + 2)
}

/// The values of the browsing query: the user, the ignored categories, the
/// limit.
pub open spec fn mods_query_binds(options: ModQueryOptions, user_id: i32) -> Seq<SqlValue> {
    seq![SqlValue::Int(user_id)] + all_values(name_rows(options.ignored_categories@))
        + seq![SqlValue::Int(options.limit)]
}

/// Builds the browsing query for a user.
pub fn select_mods(options: &ModQueryOptions, user_id: i32) -> (statement: Statement)
    requires
        all_bindable(options.ignored_categories@),
    ensures
        statement@.sql == mods_query_sql(*options),
        statement@.binds == mods_query_binds(*options, user_id),
{
    let mut statement = new_statement(SELECT_UNRATED_MODS);
    push_bind(&mut statement, SqlParam::Int(user_id));
    push_sql(&mut statement, ") ");
    let ghost head = statement_sql(statement);
    if !options.include_deprecated {
        push_sql(&mut statement, WITHOUT_DEPRECATED);
    }
    proof {
        assert(head + Seq::<char>::empty() =~= head);
    }
    let ghost flagged = statement_sql(statement);
    if !options.include_nsfw {
        push_sql(&mut statement, WITHOUT_NSFW);
    }
    proof {
        assert(flagged + Seq::<char>::empty() =~= flagged);
    }
    let ghost filtered = statement_sql(statement);
    proof {
        assert(statement_binds(statement) =~= seq![SqlValue::Int(user_id)]);
        assert(all_values(name_rows(Seq::<String>::empty())) =~= Seq::<SqlValue>::empty());
    }
    if options.ignored_categories.len() != 0 {
        push_sql(&mut statement, WITHOUT_CATEGORIES);
        push_sql(&mut statement, " (");
        let rows = text_rows(&options.ignored_categories);
        push_rows(&mut statement, &rows);
        push_sql(&mut statement, ") ");
        push_sql(&mut statement, ") ");
        proof {
            let names = options.ignored_categories@;
            let a = WITHOUT_CATEGORIES@;
            let b = " ("@;
            let c = rows_text(2, name_rows(names));
            let d = ") "@;
            assert(statement_sql(statement) == filtered + a + b + c + d + d);
            assert(filtered + a + b + c + d + d =~= filtered + (a + b + c + d + d));
        }
    } else {
        proof {
            assert(options.ignored_categories@ =~= Seq::<String>::empty());
            assert(filtered + Seq::<char>::empty() =~= filtered);
            assert(statement_binds(statement) + Seq::<SqlValue>::empty() =~= statement_binds(
                statement,
            ));
        }
    }
    proof {
        lemma_name_rows_len(options.ignored_categories@);
    }
    push_sql(&mut statement, NEWEST_FIRST);
    push_sql(&mut statement, "LIMIT ");
    push_bind(&mut statement, SqlParam::Int(options.limit));
    proof {
        assert(statement_binds(statement) =~= mods_query_binds(*options, user_id));
    }
    statement
}

/// The insert of categories, up to the rows.
pub const INSERT_CATEGORIES: &'static str = "INSERT INTO categories(name) ";

/// What an insert does with a row that is already there: nothing.
pub const KEEP_EXISTING: &'static str = " ON CONFLICT DO NOTHING;";

/// The insert of mods, up to the rows.
pub const INSERT_MODS: &'static str =
    "INSERT INTO mods (id, name, description, icon_url, full_name, owner, package_url, updated_date, rating, deprecated, nsfw) ";

/// What the insert of mods does with a mod that is already there: every
/// column but the identifier takes the new value.
pub const OVERWRITE_EXISTING: &'static str =
    " ON CONFLICT(id) DO UPDATE SET name = EXCLUDED.name, description = EXCLUDED.description, icon_url = EXCLUDED.icon_url, full_name = EXCLUDED.full_name, owner = EXCLUDED.owner, package_url = EXCLUDED.package_url, updated_date = EXCLUDED.updated_date, rating = EXCLUDED.rating, deprecated = EXCLUDED.deprecated, nsfw = EXCLUDED.nsfw;";

/// The insert of links between mods and categories, up to the rows.
pub const INSERT_LINKS: &'static str = "INSERT INTO mod_category (mod_id, category_id) ";

/// The statement that removes every link between mods and categories.
pub const CLEAR_LINKS: &'static str = "DELETE FROM mod_category;";

/// The query for the categories, in the order of their identifiers.
pub const SELECT_CATEGORIES: &'static str = "SELECT id, name FROM categories ORDER BY id;";

/// The query for the instant of the last import.
pub const SELECT_IMPORT_DATE: &'static str = "SELECT date FROM mods_imported_date WHERE id = 0;";

/// The statement that records the instant of an import in place of the one
/// recorded before; its one value is the instant.
pub const SET_IMPORT_DATE: &'static str =
    "INSERT INTO mods_imported_date (id, date) VALUES (0, $1) ON CONFLICT(id) DO UPDATE SET date = EXCLUDED.date;";

/// The statement that records a rating; its values are the mod, the rating
/// and the user.
pub const INSERT_RATING: &'static str =
    "INSERT INTO ratings(mod_id, rating, user_id) VALUES ($1, $2, $3);";

/// The query for the mods that a user gave a rating; its values are the
/// rating, the user and the limit.
pub const SELECT_RATED_MODS: &'static str =
    "SELECT mods.name, mods.owner, mods.description, mods.icon_url, mods.package_url, mods.id, ARRAY(SELECT categories.name FROM mod_category JOIN categories ON categories.id = mod_category.category_id WHERE mod_category.mod_id = mods.id) AS categories FROM mods JOIN ratings ON mods.id = ratings.mod_id WHERE ratings.rating = $1 AND ratings.user_id = $2 LIMIT $3;";

/// The statement that adds a user; its values are the name and the hash of
/// the password.
pub const INSERT_USER: &'static str = "INSERT INTO users(username, password_hash) VALUES ($1, $2);";

/// The query for the user of a name; its one value is the name.
pub const FIND_USER: &'static str =
    "SELECT id, username, password_hash, has_import_privileges FROM users WHERE username = $1;";

/// The query for the user of an identifier; its one value is the identifier.
pub const FIND_USER_BY_ID: &'static str =
    "SELECT id, username, password_hash, has_import_privileges FROM users WHERE id = $1;";

/// The insert of the given category names: a name that is already there is
/// left as it is.
pub open spec fn insert_categories_view(names: Seq<String>) -> StatementView {
    StatementView {
        sql: INSERT_CATEGORIES@ + "VALUES "@ + rows_text(1, name_rows(names)) + KEEP_EXISTING@,
        binds: all_values(name_rows(names)),
    }
}

/// Builds the insert of category names; there is none for no names.
pub fn insert_categories_statement(names: &Vec<String>) -> (statement: Option<Statement>)
    requires
        all_bindable(names@),
    ensures
        statement is None <==> names@.len() == 0,
        statement matches Some(s) ==> s@ == insert_categories_view(names@),
{
    if names.len() == 0 {
        return None;
    }
    let mut statement = new_statement(INSERT_CATEGORIES);
    push_sql(&mut statement, "VALUES ");
    let rows = text_rows(names);
    push_rows(&mut statement, &rows);
    push_sql(&mut statement, KEEP_EXISTING);
    proof {
        assert(statement_binds(statement) =~= all_values(name_rows(names@)));
    }
    Some(statement)
}

/// The values of a mod's row, in the order of the columns.
pub open spec fn mod_values(m: InsertModView) -> Seq<SqlValue> {
    seq![
        SqlValue::Uuid(m.record.id),
        SqlValue::Text(m.record.name),
        SqlValue::Text(m.record.description),
        SqlValue::Text(m.record.icon_url),
        SqlValue::Text(m.record.full_name),
        SqlValue::Text(m.record.owner),
        SqlValue::Text(m.record.package_url),
        SqlValue::Date(m.record.updated_date),
        SqlValue::BigInt(m.record.rating),
        SqlValue::Bool(m.record.deprecated),
        SqlValue::Bool(m.record.nsfw),
    ]
}

/// Whether every text of the mod's row can be bound.
pub open spec fn mod_bindable(m: InsertModView) -> bool {
    &&& bindable(m.record.name)
    &&& bindable(m.record.description)
    &&& bindable(m.record.icon_url)
    &&& bindable(m.record.full_name)
    &&& bindable(m.record.owner)
    &&& bindable(m.record.package_url)
}

/// Whether every text of every row can be bound.
pub open spec fn mods_bindable(mods: Seq<InsertMod>) -> bool {
    forall|i: int| 0 <= i < mods.len() ==> mod_bindable(#[trigger] mods[i]@)
}

/// Whether every text of the mod's row can be bound.
pub fn is_mod_bindable(m: &InsertMod) -> (fits: bool)
    ensures
        fits == mod_bindable(m@),
{
    crate::sql::is_bindable(m.name.as_str()) && crate::sql::is_bindable(m.description.as_str())
        && crate::sql::is_bindable(m.icon_url.as_str()) && crate::sql::is_bindable(
        m.full_name.as_str(),
    ) && crate::sql::is_bindable(m.owner.as_str()) && crate::sql::is_bindable(
        m.package_url.as_str(),
    )
}

/// The parameters of a mod's row.
pub fn mod_params(m: &InsertMod) -> (row: Vec<SqlParam>)
    requires
        mod_bindable(m@),
    ensures
        row_values(row@) == mod_values(m@),
        forall|j: int| 0 <= j < row@.len() ==> (#[trigger] row@[j]).fits(),
{
    let mut row: Vec<SqlParam> = Vec::new();
    row.push(SqlParam::Uuid(m.uuid4));
    row.push(SqlParam::Text(m.name.clone()));
    row.push(SqlParam::Text(m.description.clone()));
    row.push(SqlParam::Text(m.icon_url.clone()));
    row.push(SqlParam::Text(m.full_name.clone()));
    row.push(SqlParam::Text(m.owner.clone()));
    row.push(SqlParam::Text(m.package_url.clone()));
    row.push(SqlParam::Date(m.updated_date));
    row.push(SqlParam::BigInt(m.rating));
    row.push(SqlParam::Bool(m.is_deprecated));
    row.push(SqlParam::Bool(m.has_nsfw_content));
    proof {
        assert(row_values(row@) =~= mod_values(m@));
    }
    row
}

/// The rows of values of the given mods.
pub open spec fn mods_rows(mods: Seq<InsertModView>) -> Seq<Seq<SqlValue>> {
    mods.map_values(|m: InsertModView| mod_values(m))
}

/// The insert of the given mods: a mod that is already there is overwritten.
pub open spec fn upsert_mods_view(mods: Seq<InsertModView>) -> StatementView {
    StatementView {
        sql: INSERT_MODS@ + "VALUES "@ + rows_text(1, mods_rows(mods)) + OVERWRITE_EXISTING@,
        binds: all_values(mods_rows(mods)),
    }
}

/// Builds the insert of the mods from index `start` up to `end`; there is
/// none for no mods.
pub fn upsert_mods_statement(mods: &Vec<InsertMod>, start: usize, end: usize) -> (statement:
    Option<Statement>)
    requires
        start <= end <= mods@.len(),
        mods_bindable(mods@),
    ensures
        statement is None <==> start == end,
        statement matches Some(s) ==> s@ == upsert_mods_view(
            insert_views(mods@).subrange(start as int, end as int),
        ),
{
    if start == end {
        return None;
    }
    let ghost chunk = insert_views(mods@).subrange(start as int, end as int);
    let mut rows: Vec<Vec<SqlParam>> = Vec::new();
    let mut i: usize = start;
    while i < end
        invariant
            start <= i <= end <= mods@.len(),
            mods_bindable(mods@),
            rows@.len() == i - start,
            forall|k: int|
                0 <= k < rows@.len() ==> row_values((#[trigger] rows@[k])@) == mod_values(
                    mods@[start + k]@,
                ),
            forall|k: int, j: int|
                0 <= k < rows@.len() && 0 <= j < rows@[k]@.len() ==> (
                #[trigger] rows@[k]@[j]).fits(),
        decreases end - i,
    {
        assert(mod_bindable(mods@[i as int]@));
        let row = mod_params(&mods[i]);
        rows.push(row);
        i += 1;
    }
    proof {
        assert(rows_values(rows@) =~= mods_rows(chunk));
    }
    let mut statement = new_statement(INSERT_MODS);
    push_sql(&mut statement, "VALUES ");
    push_rows(&mut statement, &rows);
    push_sql(&mut statement, OVERWRITE_EXISTING);
    proof {
        assert(statement_binds(statement) =~= all_values(mods_rows(chunk)));
    }
    Some(statement)
}

/// The rows of values of the given links.
pub open spec fn links_rows(links: Seq<(u128, i32)>) -> Seq<Seq<SqlValue>> {
    links.map_values(|link: (u128, i32)| seq![SqlValue::Uuid(link.0), SqlValue::Int(link.1)])
}

/// The insert of the given links: a link that is already there is left as it
/// is.
pub open spec fn insert_links_view(links: Seq<(u128, i32)>) -> StatementView {
    StatementView {
        sql: INSERT_LINKS@ + "VALUES "@ + rows_text(1, links_rows(links)) + KEEP_EXISTING@,
        binds: all_values(links_rows(links)),
    }
}

/// Builds the insert of the links from index `start` up to `end`; there is
/// none for no links.
pub fn insert_links_statement(links: &Vec<(u128, i32)>, start: usize, end: usize) -> (statement:
    Option<Statement>)
    requires
        start <= end <= links@.len(),
    ensures
        statement is None <==> start == end,
        statement matches Some(s) ==> s@ == insert_links_view(
            links@.subrange(start as int, end as int),
        ),
{
    if start == end {
        return None;
    }
    let ghost chunk = links@.subrange(start as int, end as int);
    let mut rows: Vec<Vec<SqlParam>> = Vec::new();
    let mut i: usize = start;
    while i < end
        invariant
            start <= i <= end <= links@.len(),
            rows@.len() == i - start,
            forall|k: int|
                0 <= k < rows@.len() ==> row_values((#[trigger] rows@[k])@) == seq![
                    SqlValue::Uuid(links@[start + k].0),
                    SqlValue::Int(links@[start + k].1),
                ],
            forall|k: int, j: int|
                0 <= k < rows@.len() && 0 <= j < rows@[k]@.len() ==> (
                #[trigger] rows@[k]@[j]).fits(),
        decreases end - i,
    {
        let mut row: Vec<SqlParam> = Vec::new();
        row.push(SqlParam::Uuid(links[i].0));
        row.push(SqlParam::Int(links[i].1));
        proof {
            assert(row_values(row@) =~= seq![
                SqlValue::Uuid(links@[i as int].0),
                SqlValue::Int(links@[i as int].1),
            ]);
        }
        rows.push(row);
        i += 1;
    }
    proof {
        assert(rows_values(rows@) =~= links_rows(chunk));
    }
    let mut statement = new_statement(INSERT_LINKS);
    push_sql(&mut statement, "VALUES ");
    push_rows(&mut statement, &rows);
    push_sql(&mut statement, KEEP_EXISTING);
    proof {
        assert(statement_binds(statement) =~= all_values(links_rows(chunk)));
    }
    Some(statement)
}

/// The statement that removes every link.
pub open spec fn clear_links_view() -> StatementView {
    StatementView { sql: CLEAR_LINKS@, binds: Seq::empty() }
}

/// The statements of one import of `mods`, in the order in which they are
/// sent: the removal of every link; the inserts of the mods, chunk by chunk;
/// the inserts of the links that the mods ask for, chunk by chunk.
pub open spec fn import_statements(mods: Seq<InsertModView>, chunk_size: nat) -> Seq<
    StatementView,
> {
    let links = catalog_links(mods);
    seq![clear_links_view()] + chunk_bounds(0, mods.len(), chunk_size).map_values(
        |bounds: (nat, nat)| upsert_mods_view(mods.subrange(bounds.0 as int, bounds.1 as int)),
    ) + chunk_bounds(0, links.len(), chunk_size).map_values(
        |bounds: (nat, nat)| insert_links_view(links.subrange(bounds.0 as int, bounds.1 as int)),
    )
}

/// The views of the statements, in order.
pub open spec fn statement_views(statements: Seq<Statement>) -> Seq<StatementView> {
    statements.map_values(|statement: Statement| statement@)
}

/// Builds the statements of one import, for chunks of `chunk_size` rows.
pub fn insert_mods_statements(mods: &Vec<InsertMod>, chunk_size: usize) -> (statements: Vec<
    Statement,
>)
    requires
        chunk_size > 0,
        mods_bindable(mods@),
    ensures
        statement_views(statements@) == import_statements(
            insert_views(mods@),
            chunk_size as nat,
        ),
{
    let ghost views = insert_views(mods@);
    let mut statements: Vec<Statement> = Vec::new();
    statements.push(new_statement(CLEAR_LINKS));
    proof {
        assert(statement_views(statements@) =~= seq![clear_links_view()]);
    }
    let ranges = chunk_ranges(mods.len(), chunk_size);
    let ghost mod_bounds = chunk_bounds(0, views.len(), chunk_size as nat);
    let ghost upserts = mod_bounds.map_values(
        |bounds: (nat, nat)| upsert_mods_view(views.subrange(bounds.0 as int, bounds.1 as int)),
    );
    let mut i: usize = 0;
    while i < ranges.len()
        invariant
            i <= ranges@.len(),
            views == insert_views(mods@),
            mods_bindable(mods@),
            mod_bounds == chunk_bounds(0, views.len(), chunk_size as nat),
            ranges_view(ranges@) == mod_bounds,
            upserts == mod_bounds.map_values(
                |bounds: (nat, nat)|
                    upsert_mods_view(views.subrange(bounds.0 as int, bounds.1 as int)),
            ),
            forall|k: int|
                0 <= k < ranges@.len() ==> (#[trigger] ranges@[k]).0 < ranges@[k].1
                    <= mods@.len(),
            statement_views(statements@) == seq![clear_links_view()] + upserts.take(i as int),
        decreases ranges@.len() - i,
    {
        let (start, end) = ranges[i];
        let ghost before = statements@;
        proof {
            assert(ranges_view(ranges@)[i as int] == (start as nat, end as nat));
        }
        match upsert_mods_statement(mods, start, end) {
            Some(statement) => {
                statements.push(statement);
                proof {
                    assert(statement_views(statements@) =~= statement_views(before).push(
                        statement@,
                    ));
                    assert(upserts.take(i + 1) =~= upserts.take(i as int).push(upserts[i as int]));
                    assert(statement_views(before).push(statement@) =~= seq![clear_links_view()]
                        + upserts.take(i + 1));
                }
            },
            None => {
                assert(false);
            },
        }
        i += 1;
    }
    proof {
        assert(upserts.take(i as int) =~= upserts);
    }
    let links = mod_category_links(mods);
    let link_ranges = chunk_ranges(links.len(), chunk_size);
    let ghost link_bounds = chunk_bounds(0, links@.len(), chunk_size as nat);
    let ghost inserts = link_bounds.map_values(
        |bounds: (nat, nat)| insert_links_view(links@.subrange(bounds.0 as int, bounds.1 as int)),
    );
    let ghost head = statement_views(statements@);
    let mut j: usize = 0;
    while j < link_ranges.len()
        invariant
            j <= link_ranges@.len(),
            link_bounds == chunk_bounds(0, links@.len(), chunk_size as nat),
            ranges_view(link_ranges@) == link_bounds,
            inserts == link_bounds.map_values(
                |bounds: (nat, nat)|
                    insert_links_view(links@.subrange(bounds.0 as int, bounds.1 as int)),
            ),
            forall|k: int|
                0 <= k < link_ranges@.len() ==> (#[trigger] link_ranges@[k]).0
                    < link_ranges@[k].1 <= links@.len(),
            statement_views(statements@) == head + inserts.take(j as int),
        decreases link_ranges@.len() - j,
    {
        let (start, end) = link_ranges[j];
        let ghost before = statements@;
        proof {
            assert(ranges_view(link_ranges@)[j as int] == (start as nat, end as nat));
        }
        match insert_links_statement(&links, start, end) {
            Some(statement) => {
                statements.push(statement);
                proof {
                    assert(statement_views(statements@) =~= statement_views(before).push(
                        statement@,
                    ));
                    assert(inserts.take(j + 1) =~= inserts.take(j as int).push(inserts[j as int]));
                    assert(statement_views(before).push(statement@) =~= head + inserts.take(
                        j + 1,
                    ));
                }
            },
            None => {
                assert(false);
            },
        }
        j += 1;
    }
    proof {
        assert(inserts.take(j as int) =~= inserts);
        assert(head + Seq::<StatementView>::empty() =~= head);
    }
    statements
}

} // verus!
