//! The statements under which the queue and the record of indexed links are
//! kept in a relational store, written for SQLite by the `sea_query` crate.

use crate::queue::{status_code, QueueItemStatus};
use vstd::prelude::*;

verus! {

/// `text` with every occurrence of `from` replaced by `to`, the occurrences
/// taken from left to right and not overlapping.
pub open spec fn replaced(text: Seq<char>, from: Seq<char>, to: Seq<char>) -> Seq<char>
    decreases text.len(),
{
    if from.len() == 0 || text.len() < from.len() {
        text
    } else if from.is_prefix_of(text) {
        to + replaced(text.skip(from.len() as int), from, to)
    } else {
        seq![text[0]] + replaced(text.skip(1), from, to)
    }
}

/// The statement that creates, unless it exists, the table `table` of the
/// queue: an integer key `id` that the store counts up by itself, a text `url`
/// that stands in one row at most, and an integer `status`, none of them null.
pub uninterp spec fn queue_table_text(
    table: Seq<char>,
    id: Seq<char>,
    url: Seq<char>,
    status: Seq<char>,
) -> Seq<char>;

/// The statement that creates, unless it exists, the table `table` of the
/// indexed links: a text key `url` and an integer `last_indexed`, none of them
/// null.
pub uninterp spec fn links_table_text(
    table: Seq<char>,
    url: Seq<char>,
    last_indexed: Seq<char>,
) -> Seq<char>;

/// The statement that sets `column` to the number `value` in the rows of
/// `table` whose `where_column` is the number `where_value`.
pub uninterp spec fn update_text(
    table: Seq<char>,
    column: Seq<char>,
    value: int,
    where_column: Seq<char>,
    where_value: int,
) -> Seq<char>;

/// The statement that sets `column` to the number `value` in the rows of
/// `table` whose `where_column` is `where_value`, which is written into the
/// statement as it is.
pub uninterp spec fn update_one_text(
    table: Seq<char>,
    column: Seq<char>,
    value: int,
    where_column: Seq<char>,
    where_value: Seq<char>,
) -> Seq<char>;

/// The statement that adds a row to `table`, with `first_value` in the column
/// `first` and `second_value` in the column `second`.
pub uninterp spec fn insert_text(
    table: Seq<char>,
    first: Seq<char>,
    second: Seq<char>,
    first_value: Seq<char>,
    second_value: Seq<char>,
) -> Seq<char>;

/// The statement that reads the columns `first` and `second` of the row of
/// `table` that has the lowest `first` among those whose `where_column` is
/// the number `where_value`.
pub uninterp spec fn select_lowest_text(
    table: Seq<char>,
    first: Seq<char>,
    second: Seq<char>,
    where_column: Seq<char>,
    where_value: int,
) -> Seq<char>;

/// The statement that reads `column` of the rows of `table` whose
/// `where_column` is `where_value`.
pub uninterp spec fn select_text(
    table: Seq<char>,
    column: Seq<char>,
    where_column: Seq<char>,
    where_value: Seq<char>,
) -> Seq<char>;

/// The statement that deletes the rows of `table` whose `where_column` is
/// `where_value`.
pub uninterp spec fn delete_text(
    table: Seq<char>,
    where_column: Seq<char>,
    where_value: Seq<char>,
) -> Seq<char>;

/// `str::replace` of the standard library, for a text as the pattern.
#[verifier::external_body]
fn replace(text: &str, from: &str, to: &str) -> (r: String)
    requires
        from@.len() > 0,
    ensures
        r@ == replaced(text@, from@, to@),
{
    text.replace(from, to)
}

/// `sea_query::Table::create` with three columns, written by
/// `SqliteQueryBuilder`.
#[verifier::external_body]
fn queue_table_sql(table: &str, id: &str, url: &str, status: &str) -> (r: String)
    ensures
        r@ == queue_table_text(table@, id@, url@, status@),
{
    sea_query::Table::create()
        .table(sea_query::Alias::new(table))
        .if_not_exists()
        .col(sea_query::ColumnDef::new(sea_query::Alias::new(id)).integer().not_null().auto_increment().primary_key())
        .col(sea_query::ColumnDef::new(sea_query::Alias::new(url)).text().not_null().unique_key())
        .col(sea_query::ColumnDef::new(sea_query::Alias::new(status)).integer().not_null())
        .to_string(sea_query::SqliteQueryBuilder)
}

/// `sea_query::Table::create` with two columns, written by
/// `SqliteQueryBuilder`.
#[verifier::external_body]
fn links_table_sql(table: &str, url: &str, last_indexed: &str) -> (r: String)
    ensures
        r@ == links_table_text(table@, url@, last_indexed@),
{
    sea_query::Table::create()
        .table(sea_query::Alias::new(table))
        .if_not_exists()
        .col(sea_query::ColumnDef::new(sea_query::Alias::new(url)).text().not_null().primary_key())
        .col(sea_query::ColumnDef::new(sea_query::Alias::new(last_indexed)).integer().not_null())
        .to_string(sea_query::SqliteQueryBuilder)
}

/// `sea_query::Query::update` with one value and one condition, both numbers,
/// written by `SqliteQueryBuilder`.
#[verifier::external_body]
fn update_sql(table: &str, column: &str, value: i32, where_column: &str, where_value: i32) -> (r:
    String)
    ensures
        r@ == update_text(table@, column@, value as int, where_column@, where_value as int),
{
    sea_query::Query::update()
        .table(sea_query::Alias::new(table))
        .value(sea_query::Alias::new(column), value)
        .and_where(sea_query::Expr::col(sea_query::Alias::new(where_column)).eq(where_value))
        .to_string(sea_query::SqliteQueryBuilder)
}

/// `sea_query::Query::update` with one number as the value and one condition,
/// written by `SqliteQueryBuilder`; what the condition compares with is
/// written into the statement as it is.
#[verifier::external_body]
fn update_one_sql(table: &str, column: &str, value: i32, where_column: &str, where_value: &str) -> (r:
    String)
    ensures
        r@ == update_one_text(table@, column@, value as int, where_column@, where_value@),
{
    sea_query::Query::update()
        .table(sea_query::Alias::new(table))
        .value(sea_query::Alias::new(column), value)
        .and_where(sea_query::Expr::col(sea_query::Alias::new(where_column))
            .eq(sea_query::SimpleExpr::Custom(where_value.to_string())))
        .to_string(sea_query::SqliteQueryBuilder)
}

/// `sea_query::Query::insert` with two columns, written by
/// `SqliteQueryBuilder`; the values are written into the statement as they
/// are.
#[verifier::external_body]
fn insert_sql(table: &str, first: &str, second: &str, first_value: &str, second_value: &str) -> (r:
    String)
    ensures
        r@ == insert_text(table@, first@, second@, first_value@, second_value@),
{
    sea_query::Query::insert()
        .into_table(sea_query::Alias::new(table))
        .columns([sea_query::Alias::new(first), sea_query::Alias::new(second)])
        .values_panic([
            sea_query::SimpleExpr::Custom(first_value.to_string()),
            sea_query::SimpleExpr::Custom(second_value.to_string()),
        ])
        .to_string(sea_query::SqliteQueryBuilder)
}

/// `sea_query::Query::select` of two columns with one condition, ordered by
/// the first column and limited to one row, written by `SqliteQueryBuilder`.
#[verifier::external_body]
fn select_lowest_sql(
    table: &str,
    first: &str,
    second: &str,
    where_column: &str,
    where_value: i32,
) -> (r: String)
    ensures
        r@ == select_lowest_text(table@, first@, second@, where_column@, where_value as int),
{
    sea_query::Query::select()
        .columns([sea_query::Alias::new(first), sea_query::Alias::new(second)])
        .from(sea_query::Alias::new(table))
        .and_where(sea_query::Expr::col(sea_query::Alias::new(where_column)).eq(where_value))
        .order_by(sea_query::Alias::new(first), sea_query::Order::Asc)
        .limit(1)
        .to_string(sea_query::SqliteQueryBuilder)
}

/// `sea_query::Query::select` of one column with one condition, written by
/// `SqliteQueryBuilder`.
#[verifier::external_body]
fn select_sql(table: &str, column: &str, where_column: &str, where_value: &str) -> (r: String)
    ensures
        r@ == select_text(table@, column@, where_column@, where_value@),
{
    sea_query::Query::select()
        .column(sea_query::Alias::new(column))
        .from(sea_query::Alias::new(table))
        .and_where(sea_query::Expr::col(sea_query::Alias::new(where_column))
            .eq(sea_query::SimpleExpr::Custom(where_value.to_string())))
        .to_string(sea_query::SqliteQueryBuilder)
}

/// `sea_query::Query::delete` with one condition, written by
/// `SqliteQueryBuilder`.
#[verifier::external_body]
fn delete_sql(table: &str, where_column: &str, where_value: &str) -> (r: String)
    ensures
        r@ == delete_text(table@, where_column@, where_value@),
{
    sea_query::Query::delete()
        .from_table(sea_query::Alias::new(table))
        .and_where(sea_query::Expr::col(sea_query::Alias::new(where_column))
            .eq(sea_query::SimpleExpr::Custom(where_value.to_string())))
        .to_string(sea_query::SqliteQueryBuilder)
}

/// The statements of the queue. `?1` stands for the value that is handed over
/// when the statement is run; a ready item has the status 0, a claimed one
/// the status 1.
#[derive(Debug)]
pub struct QueueStatements {
    /// Creates the table unless it exists.
    pub create_table: String,
    /// Makes every claimed item ready.
    pub reset_in_progress: String,
    /// Adds the URL `?1` as a ready item, unless an item holds the URL.
    pub enqueue_item: String,
    /// Reads number and URL of the ready item with the lowest number.
    pub peek_item: String,
    /// Marks the item with the number `?1` as claimed.
    pub set_in_progress: String,
    /// Deletes the item with the number `?1`.
    pub remove_item: String,
}

/// The statements of the record of indexed links. `?1` stands for the URL,
/// `?2` for the time.
#[derive(Debug)]
pub struct StorageStatements {
    /// Creates the table unless it exists.
    pub create_table: String,
    /// Records the time `?2` for the URL `?1`, in place of an earlier one.
    pub add: String,
    /// Reads the time that is recorded for the URL `?1`.
    pub get_last_indexed_timestamp: String,
}

/// An insert statement with its first word `INSERT` replaced by `with`.
pub fn insert_as(statement: &str, with: &str) -> (r: String)
    ensures
        r@ == replaced(statement@, "INSERT"@, with@),
{
    proof {
        reveal_strlit("INSERT");
    }
    replace(statement, "INSERT", with)
}

impl QueueStatements {
    /// The statements of the queue, for the table `queue`.
    pub fn new() -> (r: Self)
        ensures
            r.create_table@ == queue_table_text("queue"@, "id"@, "url"@, "status"@),
            r.reset_in_progress@ == update_text(
                "queue"@,
                "status"@,
                status_code(QueueItemStatus::Ready),
                "status"@,
                status_code(QueueItemStatus::InProgress),
            ),
            r.enqueue_item@ == replaced(
                insert_text("queue"@, "url"@, "status"@, "?1"@, "0"@),
                "INSERT"@,
                "INSERT OR IGNORE"@,
            ),
            r.peek_item@ == select_lowest_text(
                "queue"@,
                "id"@,
                "url"@,
                "status"@,
                status_code(QueueItemStatus::Ready),
            ),
            r.set_in_progress@ == update_one_text(
                "queue"@,
                "status"@,
                status_code(QueueItemStatus::InProgress),
                "id"@,
                "?1"@,
            ),
            r.remove_item@ == delete_text("queue"@, "id"@, "?1"@),
    {
        let ready = QueueItemStatus::Ready.code();
        let in_progress = QueueItemStatus::InProgress.code();
        let insert = insert_sql("queue", "url", "status", "?1", "0");
        QueueStatements {
            create_table: queue_table_sql("queue", "id", "url", "status"),
            reset_in_progress: update_sql("queue", "status", ready, "status", in_progress),
            enqueue_item: insert_as(insert.as_str(), "INSERT OR IGNORE"),
            peek_item: select_lowest_sql("queue", "id", "url", "status", ready),
            set_in_progress: update_one_sql("queue", "status", in_progress, "id", "?1"),
            remove_item: delete_sql("queue", "id", "?1"),
        }
    }
}

impl StorageStatements {
    /// The statements of the record, for the table `indexed_links`.
    pub fn new() -> (r: Self)
        ensures
            r.create_table@ == links_table_text(
                "indexed_links"@,
                "url"@,
                "last_indexed_timestamp"@,
            ),
            r.add@ == replaced(
                insert_text("indexed_links"@, "url"@, "last_indexed_timestamp"@, "?1"@, "?2"@),
                "INSERT"@,
                "REPLACE"@,
            ),
            r.get_last_indexed_timestamp@ == select_text(
                "indexed_links"@,
                "last_indexed_timestamp"@,
                "url"@,
                "?1"@,
            ),
    {
        let insert = insert_sql("indexed_links", "url", "last_indexed_timestamp", "?1", "?2");
        StorageStatements {
            create_table: links_table_sql("indexed_links", "url", "last_indexed_timestamp"),
            add: insert_as(insert.as_str(), "REPLACE"),
            get_last_indexed_timestamp: select_sql(
                "indexed_links",
                "last_indexed_timestamp",
                "url",
                "?1",
            ),
        }
    }
}

} // verus!
