//! Statements for the store, built with `sqlx::QueryBuilder`: their text, and
//! the values bound to their placeholders.

use crate::text::decimal;
use crate::timestamps::CalendarDate;
use crate::timestamps::is_calendar_date;
use sqlx::postgres::PgArguments;
use sqlx::Execute;
use sqlx::Postgres;
use sqlx::QueryBuilder;
use vstd::prelude::*;
use vstd::utf8::encode_utf8;

verus! {

/// A value bound to a placeholder of a statement.
pub enum SqlValue {
    Text(Seq<char>),
    Int(i32),
    BigInt(i64),
    Bool(bool),
    Uuid(u128),
    Date(CalendarDate),
}

/// The longest text, in bytes, that can be bound to a placeholder.
pub const MAX_TEXT_BYTES: usize = 0x7fff_ffff;

/// Whether `text` is short enough to be bound to a placeholder.
pub open spec fn bindable(text: Seq<char>) -> bool {
    encode_utf8(text).len() <= MAX_TEXT_BYTES
}

/// The placeholder of the `n`-th bound value: a dollar sign and `n`.
pub open spec fn placeholder(n: nat) -> Seq<char> {
    seq!['$'] + decimal(n)
}

/// The bound values of a statement as `sqlx` encodes them for Postgres,
/// carried through as they are.
#[verifier::external_type_specification]
#[verifier::external_body]
pub struct ExPgArguments(PgArguments);

/// A statement under construction, held by a `sqlx::QueryBuilder` for
/// Postgres: its text so far, and the values bound to its placeholders. The
/// builder is out of reach until the statement is given up for its parts, so
/// it is never built from while it can still be added to.
#[verifier::external_body]
pub struct Statement {
    builder: QueryBuilder<'static, Postgres>,
}

/// The text of the statement so far.
pub uninterp spec fn statement_sql(statement: Statement) -> Seq<char>;

/// The values bound to the statement's placeholders so far, in order.
pub uninterp spec fn statement_binds(statement: Statement) -> Seq<SqlValue>;

/// Calls `QueryBuilder::new`: the statement starts as the given text, with
/// nothing bound.
#[verifier::external_body]
pub(crate) fn new_statement(init: &str) -> (statement: Statement)
    ensures
        statement_sql(statement) == init@,
        statement_binds(statement) == Seq::<SqlValue>::empty(),
{
    Statement { builder: QueryBuilder::new(init) }
}

/// Calls `QueryBuilder::push`: the fragment is appended to the text, and the
/// bound values stay.
#[verifier::external_body]
pub(crate) fn push_sql(statement: &mut Statement, sql: &str)
    ensures
        statement_sql(*final(statement)) == statement_sql(*old(statement)) + sql@,
        statement_binds(*final(statement)) == statement_binds(*old(statement)),
{
    statement.builder.push(sql);
}

/// Calls `QueryBuilder::push_bind` with a string: the value is bound, and the
/// placeholder with its number is appended to the text. A string of more
/// than `MAX_TEXT_BYTES` bytes is left out: `push_bind` fails on it.
#[verifier::external_body]
pub(crate) fn push_bind_text(statement: &mut Statement, value: String)
    requires
        bindable(value@),
    ensures
        statement_sql(*final(statement)) == statement_sql(*old(statement)) + placeholder(
            statement_binds(*old(statement)).len() + 1,
        ),
        statement_binds(*final(statement)) == statement_binds(*old(statement)).push(
            SqlValue::Text(value@),
        ),
{
    statement.builder.push_bind(value);
}

/// Calls `QueryBuilder::push_bind` with an `i32`: the value is bound, and the
/// placeholder with its number is appended to the text.
#[verifier::external_body]
pub(crate) fn push_bind_int(statement: &mut Statement, value: i32)
    ensures
        statement_sql(*final(statement)) == statement_sql(*old(statement)) + placeholder(
            statement_binds(*old(statement)).len() + 1,
        ),
        statement_binds(*final(statement)) == statement_binds(*old(statement)).push(
            SqlValue::Int(value),
        ),
{
    statement.builder.push_bind(value);
}

/// Calls `QueryBuilder::push_bind` with an `i64`: the value is bound, and the
/// placeholder with its number is appended to the text.
#[verifier::external_body]
pub(crate) fn push_bind_bigint(statement: &mut Statement, value: i64)
    ensures
        statement_sql(*final(statement)) == statement_sql(*old(statement)) + placeholder(
            statement_binds(*old(statement)).len() + 1,
        ),
        statement_binds(*final(statement)) == statement_binds(*old(statement)).push(
            SqlValue::BigInt(value),
        ),
{
    statement.builder.push_bind(value);
}

/// Calls `QueryBuilder::push_bind` with a `bool`: the value is bound, and the
/// placeholder with its number is appended to the text.
#[verifier::external_body]
pub(crate) fn push_bind_bool(statement: &mut Statement, value: bool)
    ensures
        statement_sql(*final(statement)) == statement_sql(*old(statement)) + placeholder(
            statement_binds(*old(statement)).len() + 1,
        ),
        statement_binds(*final(statement)) == statement_binds(*old(statement)).push(
            SqlValue::Bool(value),
        ),
{
    statement.builder.push_bind(value);
}

/// Calls `QueryBuilder::push_bind` with the `uuid::Uuid` of the given value:
/// it is bound, and the placeholder with its number is appended to the text.
#[verifier::external_body]
pub(crate) fn push_bind_uuid(statement: &mut Statement, value: u128)
    ensures
        statement_sql(*final(statement)) == statement_sql(*old(statement)) + placeholder(
            statement_binds(*old(statement)).len() + 1,
        ),
        statement_binds(*final(statement)) == statement_binds(*old(statement)).push(
            SqlValue::Uuid(value),
        ),
{
    statement.builder.push_bind(uuid::Uuid::from_u128(value));
}

/// Calls `QueryBuilder::push_bind` with the `time::Date` of the given day,
/// as `time::Date::from_calendar_date` makes it: it is bound, and the
/// placeholder with its number is appended to the text.
#[verifier::external_body]
pub(crate) fn push_bind_date(statement: &mut Statement, value: CalendarDate)
    requires
        is_calendar_date(value.year() as int, value.month() as int, value.day() as int),
    ensures
        statement_sql(*final(statement)) == statement_sql(*old(statement)) + placeholder(
            statement_binds(*old(statement)).len() + 1,
        ),
        statement_binds(*final(statement)) == statement_binds(*old(statement)).push(
            SqlValue::Date(value),
        ),
{
    if let Ok(month) = time::Month::try_from(value.month()) {
        if let Ok(date) = time::Date::from_calendar_date(value.year(), month, value.day()) {
            statement.builder.push_bind(date);
        }
    }
}

/// Calls `QueryBuilder::sql`: the text of the statement so far.
#[verifier::external_body]
pub(crate) fn sql_of(statement: &Statement) -> (sql: String)
    ensures
        sql@ == statement_sql(*statement),
{
    statement.builder.sql().to_string()
}

/// Calls `QueryBuilder::build`, `Execute::take_arguments` on the query it
/// gives, and `QueryBuilder::into_sql`: the text of the statement, and its
/// bound values as `sqlx` has encoded them.
#[verifier::external_body]
pub(crate) fn take_parts(statement: Statement) -> (parts: (String, PgArguments))
    ensures
        parts.0@ == statement_sql(statement),
{
    let mut builder = statement.builder;
    let arguments = builder.build().take_arguments().ok().flatten().unwrap_or_default();
    (builder.into_sql(), arguments)
}

impl Statement {
    /// The text of the statement.
    pub fn sql(&self) -> (sql: String)
        ensures
            sql@ == statement_sql(*self),
    {
        sql_of(self)
    }

    /// Gives the statement up for what is sent to the store: its text, and
    /// its bound values as `sqlx` has encoded them.
    pub fn into_parts(self) -> (parts: (String, PgArguments))
        ensures
            parts.0@ == statement_sql(self),
    {
        take_parts(self)
    }
}

/// Whether `text` is short enough to be bound to a placeholder.
pub fn is_bindable(text: &str) -> (fits: bool)
    ensures
        fits == bindable(text@),
{
    text.as_bytes().len() <= MAX_TEXT_BYTES
}

/// A value to bind to a placeholder.
#[derive(Debug)]
pub enum SqlParam {
    Text(String),
    Int(i32),
    BigInt(i64),
    Bool(bool),
    Uuid(u128),
    Date(CalendarDate),
}

impl View for SqlParam {
    type V = SqlValue;

    open spec fn view(&self) -> SqlValue {
        match self {
            SqlParam::Text(text) => SqlValue::Text(text@),
            SqlParam::Int(value) => SqlValue::Int(*value),
            SqlParam::BigInt(value) => SqlValue::BigInt(*value),
            SqlParam::Bool(value) => SqlValue::Bool(*value),
            SqlParam::Uuid(value) => SqlValue::Uuid(*value),
            SqlParam::Date(value) => SqlValue::Date(*value),
        }
    }
}

impl SqlParam {
    /// Whether the value can be bound: a text must be short enough.
    pub open spec fn fits(&self) -> bool {
        self matches SqlParam::Text(text) ==> bindable(text@)
    }
}

impl Clone for SqlParam {
    fn clone(&self) -> (copy: SqlParam)
        ensures
            copy == *self,
    {
        match self {
            SqlParam::Text(text) => SqlParam::Text(text.clone()),
            SqlParam::Int(value) => SqlParam::Int(*value),
            SqlParam::BigInt(value) => SqlParam::BigInt(*value),
            SqlParam::Bool(value) => SqlParam::Bool(*value),
            SqlParam::Uuid(value) => SqlParam::Uuid(*value),
            SqlParam::Date(value) => SqlParam::Date(*value),
        }
    }
}

/// The values of a row of parameters.
pub open spec fn row_values(row: Seq<SqlParam>) -> Seq<SqlValue> {
    row.map_values(|param: SqlParam| param@)
}

/// The values of each row of parameters.
pub open spec fn rows_values(rows: Seq<Vec<SqlParam>>) -> Seq<Seq<SqlValue>> {
    rows.map_values(|row: Vec<SqlParam>| row_values(row@))
}

/// The values of all rows, row after row.
pub open spec fn all_values(rows: Seq<Seq<SqlValue>>) -> Seq<SqlValue>
    decreases rows.len(),
{
    if rows.len() == 0 {
        Seq::empty()
    } else {
        all_values(rows.drop_last()) + rows.last()
    }
}

/// `count` placeholders, numbered from `first`, separated by a comma and a
/// space.
pub open spec fn cells_text(first: nat, count: nat) -> Seq<char>
    decreases count,
{
    if count == 0 {
        Seq::empty()
    } else if count == 1 {
        placeholder(first)
    } else {
        cells_text(first, (count - 1) as nat) + ", "@ + placeholder((first + count - 1) as nat)
    }
}

/// The rows as tuples of placeholders: each row in round brackets, the rows
/// separated by a comma and a space, the placeholders numbered from `first`
/// on through all rows.
pub open spec fn rows_text(first: nat, rows: Seq<Seq<SqlValue>>) -> Seq<char>
    decreases rows.len(),
{
    if rows.len() == 0 {
        Seq::empty()
    } else {
        let front = rows.drop_last();
        rows_text(first, front) + (if front.len() == 0 {
            "("@
        } else {
            ", ("@
        }) + cells_text(first + all_values(front).len(), rows.last().len()) + ")"@
    }
}

/// Binds one value, whatever its kind.
pub fn push_bind(statement: &mut Statement, param: SqlParam)
    requires
        param.fits(),
    ensures
        statement_sql(*final(statement)) == statement_sql(*old(statement)) + placeholder(
            statement_binds(*old(statement)).len() + 1,
        ),
        statement_binds(*final(statement)) == statement_binds(*old(statement)).push(param@),
{
    match param {
        SqlParam::Text(text) => push_bind_text(statement, text),
        SqlParam::Int(value) => push_bind_int(statement, value),
        SqlParam::BigInt(value) => push_bind_bigint(statement, value),
        SqlParam::Bool(value) => push_bind_bool(statement, value),
        SqlParam::Uuid(value) => push_bind_uuid(statement, value),
        SqlParam::Date(value) => {
            proof {
                use_type_invariant(&value);
            }
            push_bind_date(statement, value)
        },
    }
}

/// Appends the rows as tuples of placeholders and binds their values.
pub fn push_rows(statement: &mut Statement, rows: &Vec<Vec<SqlParam>>)
    requires
        forall|i: int, j: int|
            0 <= i < rows@.len() && 0 <= j < rows@[i]@.len() ==> (#[trigger] rows@[i]@[j]).fits(),
    ensures
        statement_sql(*final(statement)) == statement_sql(*old(statement)) + rows_text(
            statement_binds(*old(statement)).len() + 1,
            rows_values(rows@),
        ),
        statement_binds(*final(statement)) == statement_binds(*old(statement)) + all_values(
            rows_values(rows@),
        ),
{
    let ghost base = statement_sql(*statement);
    let ghost bound = statement_binds(*statement);
    let ghost first = bound.len() + 1;
    let ghost values = rows_values(rows@);
    proof {
        assert(base + rows_text(first, values.take(0)) =~= base);
        assert(bound + all_values(values.take(0)) =~= bound);
    }
    let mut i: usize = 0;
    while i < rows.len()
        invariant
            i <= rows@.len(),
            values == rows_values(rows@),
            forall|i: int, j: int|
                0 <= i < rows@.len() && 0 <= j < rows@[i]@.len() ==> (
                #[trigger] rows@[i]@[j]).fits(),
            statement_sql(*statement) == base + rows_text(first, values.take(i as int)),
            statement_binds(*statement) == bound + all_values(values.take(i as int)),
            first == bound.len() + 1,
        decreases rows@.len() - i,
    {
        let ghost front = values.take(i as int);
        let row = &rows[i];
        if i == 0 {
            push_sql(statement, "(");
        } else {
            push_sql(statement, ", (");
        }
        let ghost opened = statement_sql(*statement);
        let ghost row_first = first + all_values(front).len();
        proof {
            assert(opened + cells_text(row_first, 0) =~= opened);
            assert(row_values(row@.take(0)) =~= Seq::<SqlValue>::empty());
            assert(bound + all_values(front) + row_values(row@.take(0)) =~= bound + all_values(
                front,
            ));
        }
        let mut j: usize = 0;
        while j < row.len()
            invariant
                j <= row@.len(),
                forall|k: int| 0 <= k < row@.len() ==> (#[trigger] row@[k]).fits(),
                statement_sql(*statement) == opened + cells_text(row_first, j as nat),
                statement_binds(*statement) == bound + all_values(front) + row_values(
                    row@.take(j as int),
                ),
                row_first == bound.len() + 1 + all_values(front).len(),
            decreases row@.len() - j,
        {
            proof {
                assert(statement_binds(*statement).len() == bound.len() + all_values(front).len()
                    + j);
            }
            if j > 0 {
                push_sql(statement, ", ");
            }
            let param = row[j].clone();
            push_bind(statement, param);
            proof {
                let n = j as nat;
                let number = (row_first + n) as nat;
                if n == 0 {
                    assert(opened + cells_text(row_first, 0) + placeholder(number) =~= opened
                        + cells_text(row_first, 1));
                } else {
                    lemma_concat_assoc(opened, cells_text(row_first, n), ", "@);
                    lemma_concat_assoc(
                        opened,
                        cells_text(row_first, n) + ", "@,
                        placeholder(number),
                    );
                    assert(cells_text(row_first, n + 1) == cells_text(row_first, n) + ", "@
                        + placeholder(number));
                }
                assert(row_values(row@.take(j + 1)) =~= row_values(row@.take(j as int)).push(
                    row@[j as int]@,
                ));
                assert(bound + all_values(front) + row_values(row@.take(j as int)).push(
                    row@[j as int]@,
                ) =~= (bound + all_values(front) + row_values(row@.take(j as int))).push(
                    row@[j as int]@,
                ));
            }
            j += 1;
        }
        push_sql(statement, ")");
        proof {
            assert(row@.take(j as int) =~= row@);
            let whole = values.take(i + 1);
            assert(whole.drop_last() =~= front);
            assert(whole.last() == row_values(row@));
            let open = if front.len() == 0 {
                "("@
            } else {
                ", ("@
            };
            let middle = cells_text(row_first, row@.len());
            lemma_concat_assoc(base, rows_text(first, front), open);
            lemma_concat_assoc(base, rows_text(first, front) + open, middle);
            lemma_concat_assoc(base, rows_text(first, front) + open + middle, ")"@);
            assert(rows_text(first, whole) == rows_text(first, front) + open + middle + ")"@);
            assert(all_values(whole) == all_values(front) + row_values(row@));
            assert(bound + all_values(front) + row_values(row@) =~= bound + all_values(whole));
        }
        i += 1;
    }
    proof {
        assert(values.take(i as int) =~= values);
    }
}

/// Concatenation does not depend on the bracketing.
pub proof fn lemma_concat_assoc(a: Seq<char>, b: Seq<char>, c: Seq<char>)
    ensures
        (a + b) + c == a + (b + c),
{
    assert((a + b) + c =~= a + (b + c));
}

} // verus!
