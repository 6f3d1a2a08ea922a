use copy_camel::history::ClipboardHistory;
use copy_camel::poller::Poller;
use copy_camel::store::{clear_statement, create_table_statement, insert_statement};

fn open_store() -> sqlite::Connection {
    let connection = sqlite::open(":memory:").unwrap();
    connection.execute(create_table_statement()).unwrap();
    connection
}

fn rows(connection: &sqlite::Connection) -> Vec<(i64, Vec<u8>, i64)> {
    let mut statement = connection
        .prepare("SELECT id, CAST(entry AS BLOB), timestamp FROM history ORDER BY id")
        .unwrap();
    let mut found = Vec::new();
    while let sqlite::State::Row = statement.next().unwrap() {
        found.push((
            statement.read::<i64, _>(0).unwrap(),
            statement.read::<Vec<u8>, _>(1).unwrap(),
            statement.read::<i64, _>(2).unwrap(),
        ));
    }
    found
}

fn column_types(connection: &sqlite::Connection) -> Vec<(String, String)> {
    let mut statement = connection
        .prepare("SELECT typeof(entry), typeof(timestamp) FROM history ORDER BY id")
        .unwrap();
    let mut found = Vec::new();
    while let sqlite::State::Row = statement.next().unwrap() {
        found.push((
            statement.read::<String, _>(0).unwrap(),
            statement.read::<String, _>(1).unwrap(),
        ));
    }
    found
}

#[test]
fn schema_can_be_created_twice() {
    let connection = open_store();
    connection.execute(insert_statement("kept", 1)).unwrap();
    connection.execute(create_table_statement()).unwrap();
    assert_eq!(rows(&connection), vec![(1, b"kept".to_vec(), 1)]);
}

#[test]
fn new_store_has_no_rows() {
    let connection = open_store();
    assert!(rows(&connection).is_empty());
}

#[test]
fn insert_appends_one_row_with_the_content_and_the_time() {
    let connection = open_store();
    connection
        .execute(insert_statement("hello", 1_700_000_000))
        .unwrap();
    assert_eq!(connection.change_count(), 1);
    assert_eq!(rows(&connection), vec![(1, b"hello".to_vec(), 1_700_000_000)]);
    assert_eq!(
        column_types(&connection),
        vec![(String::from("text"), String::from("integer"))]
    );
}

#[test]
fn ids_grow_in_the_order_of_insertion() {
    let connection = open_store();
    let contents = vec!["a", "b", "a", "", "c"];
    for (at, content) in contents.iter().enumerate() {
        connection
            .execute(insert_statement(content, 100 + at as u64))
            .unwrap();
    }
    let found = rows(&connection);
    assert_eq!(found.len(), 5);
    for at in 0..found.len() {
        assert_eq!(found[at].1, contents[at].as_bytes().to_vec());
        assert_eq!(found[at].2, 100 + at as i64);
        if at > 0 {
            assert!(found[at].0 > found[at - 1].0);
        }
    }
}

#[test]
fn any_text_comes_back_as_it_went_in() {
    let connection = open_store();
    let contents = vec![
        "it's",
        "'",
        "''",
        "'''",
        "x'); DROP TABLE history; --",
        "a\0b",
        "\0",
        "\0\0'\0",
        "'||char(0)||'",
        "||",
        "line\nbreak\r\n\ttab",
        "back\\slash \"double\" %s ?1 :name $x @y",
        "\u{1F42A} caf\u{e9} \u{65e5}\u{672c}\u{8a9e}",
        "",
        "-- not a comment /* nor this */;",
    ];
    for content in contents.iter() {
        connection.execute(insert_statement(content, 3)).unwrap();
        assert_eq!(connection.change_count(), 1);
    }
    let found = rows(&connection);
    assert_eq!(found.len(), contents.len());
    for at in 0..found.len() {
        assert_eq!(found[at].1, contents[at].as_bytes().to_vec());
        assert_eq!(found[at].2, 3);
    }
    for types in column_types(&connection) {
        assert_eq!(types, (String::from("text"), String::from("integer")));
    }
}

#[test]
fn clear_leaves_no_rows() {
    let connection = open_store();
    connection.execute(insert_statement("a", 1)).unwrap();
    connection.execute(insert_statement("b", 2)).unwrap();
    connection.execute(clear_statement()).unwrap();
    assert!(rows(&connection).is_empty());
}

#[test]
fn clear_on_an_empty_store_succeeds() {
    let connection = open_store();
    connection.execute(clear_statement()).unwrap();
    connection.execute(clear_statement()).unwrap();
    assert!(rows(&connection).is_empty());
}

#[test]
fn ids_are_not_reused_after_clear() {
    let connection = open_store();
    connection.execute(insert_statement("a", 1)).unwrap();
    connection.execute(insert_statement("b", 2)).unwrap();
    connection.execute(insert_statement("c", 3)).unwrap();
    let highest = rows(&connection).iter().map(|row| row.0).max().unwrap();
    connection.execute(clear_statement()).unwrap();
    connection.execute(insert_statement("d", 4)).unwrap();
    let found = rows(&connection);
    assert_eq!(found.len(), 1);
    assert!(found[0].0 > highest);
    assert_eq!(found[0].1, b"d".to_vec());
    connection.execute(clear_statement()).unwrap();
    connection.execute(insert_statement("e", 5)).unwrap();
    assert!(rows(&connection)[0].0 > found[0].0);
}

#[test]
fn polled_changes_reach_the_store_in_order() {
    let connection = open_store();
    let mut poller = Poller::new();
    let mut history = ClipboardHistory::new();
    let readings = vec![
        Some(String::new()),
        Some(String::from("a")),
        Some(String::from("a")),
        None,
        Some(String::from("b")),
        Some(String::from("a")),
    ];
    let mut now: u64 = 50;
    for reading in readings {
        if let Some(statement) = poller.poll(&mut history, reading, now) {
            connection.execute(statement).unwrap();
        }
        now += 1;
    }
    let found = rows(&connection);
    assert_eq!(
        found.iter().map(|row| (row.1.clone(), row.2)).collect::<Vec<_>>(),
        vec![(b"a".to_vec(), 51), (b"b".to_vec(), 54), (b"a".to_vec(), 55)]
    );
    let in_memory: Vec<Vec<u8>> = history
        .retrieve()
        .into_iter()
        .map(|entry| entry.into_bytes())
        .collect();
    let durable: Vec<Vec<u8>> = found.into_iter().map(|row| row.1).collect();
    assert_eq!(in_memory, durable);
}

#[test]
fn clear_does_not_empty_the_history_in_memory() {
    let connection = open_store();
    let mut poller = Poller::new();
    let mut history = ClipboardHistory::new();
    if let Some(statement) = poller.poll(&mut history, Some(String::from("a")), 1) {
        connection.execute(statement).unwrap();
    }
    connection.execute(clear_statement()).unwrap();
    assert!(rows(&connection).is_empty());
    assert_eq!(history.retrieve(), vec![String::from("a")]);
}
