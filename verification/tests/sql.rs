use wexplorer_indexing::sql::{insert_as, QueueStatements, StorageStatements};

#[test]
fn queue_statements_are_written_for_sqlite() {
    let statements = QueueStatements::new();
    assert_eq!(
        "CREATE TABLE IF NOT EXISTS \"queue\" ( \"id\" integer NOT NULL PRIMARY KEY AUTOINCREMENT, \"url\" text NOT NULL UNIQUE, \"status\" integer NOT NULL )",
        statements.create_table
    );
    assert_eq!(
        "UPDATE \"queue\" SET \"status\" = 0 WHERE \"status\" = 1",
        statements.reset_in_progress
    );
    assert_eq!(
        "INSERT OR IGNORE INTO \"queue\" (\"url\", \"status\") VALUES (?1, 0)",
        statements.enqueue_item
    );
    assert_eq!(
        "SELECT \"id\", \"url\" FROM \"queue\" WHERE \"status\" = 0 ORDER BY \"id\" ASC LIMIT 1",
        statements.peek_item
    );
    assert_eq!(
        "UPDATE \"queue\" SET \"status\" = 1 WHERE \"id\" = (?1)",
        statements.set_in_progress
    );
    assert_eq!("DELETE FROM \"queue\" WHERE \"id\" = (?1)", statements.remove_item);
}

#[test]
fn storage_statements_are_written_for_sqlite() {
    let statements = StorageStatements::new();
    assert_eq!(
        "CREATE TABLE IF NOT EXISTS \"indexed_links\" ( \"url\" text NOT NULL PRIMARY KEY, \"last_indexed_timestamp\" integer NOT NULL )",
        statements.create_table
    );
    assert_eq!(
        "REPLACE INTO \"indexed_links\" (\"url\", \"last_indexed_timestamp\") VALUES (?1, ?2)",
        statements.add
    );
    assert_eq!(
        "SELECT \"last_indexed_timestamp\" FROM \"indexed_links\" WHERE \"url\" = (?1)",
        statements.get_last_indexed_timestamp
    );
}

#[test]
fn every_occurrence_of_the_word_is_replaced() {
    assert_eq!("REPLACE INTO t", insert_as("INSERT INTO t", "REPLACE"));
    assert_eq!("xAyAINSER", insert_as("xINSERTyINSERTINSER", "A"));
    assert_eq!("select", insert_as("select", "REPLACE"));
    assert_eq!("", insert_as("", "REPLACE"));
}
