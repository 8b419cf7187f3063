use mlc_cli::json::Json;
use mlc_cli::output::{counted, field, people, table_rows, table_text, terminal_table};

fn object(entries: Vec<(&str, Json)>) -> Json {
    Json::Object(entries.into_iter().map(|(k, v)| (k.to_string(), v)).collect())
}

fn text(s: &str) -> Json {
    Json::Str(s.into())
}

#[test]
fn fields_take_the_first_string_and_drop_control_characters() {
    let item = object(vec![
        ("mlcSongCode", Json::Number("7".into())),
        ("mlcsongCode", text("A1\u{1b}[31m")),
        ("id", text("B2")),
    ]);
    assert_eq!(field(&item, &["mlcSongCode", "mlcsongCode", "id"]), "A1[31m");
    assert_eq!(field(&item, &["missing"]), "");
    assert_eq!(field(&text("x"), &["id"]), "");
}

#[test]
fn people_lists_writers_or_artist() {
    let writers = object(vec![(
        "writers",
        Json::Array(vec![
            object(vec![("writerFirstName", text("Jane")), ("writerLastName", text("Doe"))]),
            object(vec![("writerLastName", text("Roe"))]),
            object(vec![]),
        ]),
    )]);
    assert_eq!(people(&writers), "Jane Doe, Roe, ");
    let artist = object(vec![("artists", text("Example Artist"))]);
    assert_eq!(people(&artist), "Example Artist");
}

#[test]
fn tables_show_one_row_per_item_and_the_count() {
    let value = Json::Array(vec![object(vec![
        ("mlcSongCode", text("A1")),
        ("workTitle", text("Yesterday")),
        ("iswc", text("T-1")),
        ("artist", text("The Beatles")),
    ])]);
    let table = table_text(&value).unwrap();
    assert!(table.ends_with("\n1 result(s)"));
    assert!(table.contains("MLC code"));
    assert!(table.contains("| A1 "));
    assert!(table.contains("Yesterday"));
    assert!(table.contains("The Beatles"));
    assert!(table_text(&text("x")).is_none());
    assert!(table_text(&Json::Array(vec![])).unwrap().ends_with("\n0 result(s)"));
}

#[test]
fn table_rows_hold_the_four_columns() {
    let value = Json::Array(vec![
        object(vec![("id", text("C3")), ("title", text("Help!")), ("isrc", text("GB1"))]),
        text("not an object"),
    ]);
    let rows = table_rows(&value).unwrap();
    assert_eq!(rows, vec![
        vec!["C3".to_string(), "Help!".to_string(), "GB1".to_string(), String::new()],
        vec![String::new(), String::new(), String::new(), String::new()],
    ]);
    assert!(table_rows(&Json::Null).is_none());
    assert_eq!(counted("table", 12), "table\n12 result(s)");
}

#[test]
fn tables_only_on_a_terminal_without_json() {
    let items = Json::Array(vec![Json::Object(vec![("title".into(), Json::Str("Love".into()))])]);
    assert!(terminal_table(&items, true, true).is_none());
    assert!(terminal_table(&items, false, false).is_none());
    assert_eq!(terminal_table(&items, false, true), table_text(&items));
    assert!(terminal_table(&Json::Null, false, true).is_none());
}
