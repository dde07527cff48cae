use jira_tracker::db::{DBState, Error, JiraDatabase, MockDB};
use jira_tracker::idmap::IdMap;
use jira_tracker::models::{Epic, Status, Story};
use jira_tracker::persist::{from_json, to_json};
use jira_tracker::textutil::parse_u32;

#[test]
fn read_db_should_fail_with_invalid_json() {
    let file_contents = r#"{ "last_item_id": 0 epics: {} stories {} }"#;
    let result = from_json(file_contents);
    assert_eq!(result.is_err(), true);
}

#[test]
fn read_db_should_parse_json_file() {
    let file_contents = r#"{ "last_item_id": 0, "epics": {}, "stories": {} }"#;
    let result = from_json(file_contents);
    if let Err(e) = &result {
        println!("Error: {:?}", e);
    }
    assert!(result.is_ok());
}

#[test]
fn write_db_should_word() {
    let story = Story::new("Story 1".to_owned(), "Description 1".to_owned());
    let epic = Epic {
        name: "Epic 1".to_owned(),
        description: "Description 1".to_owned(),
        status: Status::Open,
        stories: vec![2],
    };

    let mut epics = IdMap::new();
    epics.insert(1, epic);
    let mut stories = IdMap::new();
    stories.insert(2, story);
    let db_state = DBState {
        last_item_id: 1,
        epics,
        stories,
    };

    let written = to_json(&db_state);
    let read_result = from_json(&written).unwrap();
    assert_eq!(read_result, db_state);
}

#[test]
fn to_json_writes_the_exact_canonical_text() {
    let mut db = JiraDatabase::new(MockDB::new());
    let epic_id = db
        .create_epic(Epic::new("E".to_owned(), "d".to_owned()))
        .unwrap();
    db.create_story(Story::new("S".to_owned(), "".to_owned()), epic_id)
        .unwrap();
    let state = db.read().unwrap();

    let expected = r#"{"last_item_id":2,"epics":{"1":{"name":"E","description":"d","status":"Open","stories":[2]}},"stories":{"2":{"name":"S","description":"","status":"Open"}}}"#;
    assert_eq!(to_json(&state), expected);
}

#[test]
fn empty_state_round_trips_through_exact_text() {
    let db = JiraDatabase::new(MockDB::new());
    let state = db.read().unwrap();
    let text = to_json(&state);
    assert_eq!(text, r#"{"last_item_id":0,"epics":{},"stories":{}}"#);
    assert_eq!(from_json(&text).unwrap(), state);
}

#[test]
fn quotes_and_backslashes_round_trip() {
    let mut db = JiraDatabase::new(MockDB::new());
    let epic_id = db
        .create_epic(Epic::new(
            "a \"quoted\" name".to_owned(),
            "back\\slash \\\" mix".to_owned(),
        ))
        .unwrap();
    db.create_story(
        Story::new("\\\\".to_owned(), "\"\"".to_owned()),
        epic_id,
    )
    .unwrap();
    db.update_story_status(2, Status::Resolved).unwrap();
    let state = db.read().unwrap();

    let read_back = from_json(&to_json(&state)).unwrap();
    assert_eq!(read_back, state);
}

#[test]
fn all_statuses_round_trip() {
    let mut db = JiraDatabase::new(MockDB::new());
    for (k, status) in [
        Status::Open,
        Status::InProgress,
        Status::Resolved,
        Status::Closed,
    ]
    .into_iter()
    .enumerate()
    {
        let id = db
            .create_epic(Epic::new(format!("e{}", k), "".to_owned()))
            .unwrap();
        db.update_epic_status(id, status).unwrap();
    }
    let state = db.read().unwrap();
    assert_eq!(from_json(&to_json(&state)).unwrap(), state);
}

#[test]
fn corrupt_text_fails_with_corrupt_state() {
    for bad in [
        "",
        "{}",
        r#"{"last_item_id":0,"epics":{},"stories":{}}trailing"#,
        r#"{"last_item_id":-1,"epics":{},"stories":{}}"#,
        r#"{"last_item_id":4294967296,"epics":{},"stories":{}}"#,
        r#"{"last_item_id":0,"epics":{"x":{}},"stories":{}}"#,
        r#"{"last_item_id":0,"stories":{},"epics":{}}"#,
        r#"{"last_item_id":1,"epics":{"1":{"name":"n","description":"d","status":"Unknown","stories":[]}},"stories":{}}"#,
    ] {
        assert_eq!(from_json(bad), Err(Error::CorruptState));
    }
}

#[test]
fn parse_u32_accepts_what_rust_accepts() {
    assert_eq!(parse_u32("0"), Some(0));
    assert_eq!(parse_u32("42"), Some(42));
    assert_eq!(parse_u32("+7"), Some(7));
    assert_eq!(parse_u32("4294967295"), Some(u32::MAX));
    assert_eq!(parse_u32("4294967296"), None);
    assert_eq!(parse_u32(""), None);
    assert_eq!(parse_u32("+"), None);
    assert_eq!(parse_u32("-1"), None);
    assert_eq!(parse_u32(" 1"), None);
    assert_eq!(parse_u32("1 "), None);
    assert_eq!(parse_u32("12a"), None);
}

#[test]
fn reader_accepts_standard_escapes() {
    let text = r#"{"last_item_id":1,"epics":{"1":{"name":"a\nb\tc\/dA\be\ff\r","description":"q\"w\\e","status":"Open","stories":[]}},"stories":{}}"#;
    let state = from_json(text).unwrap();
    let epic = state.epics.get(1).unwrap();
    assert_eq!(epic.name, "a\nb\tc/dA\u{8}e\u{c}f\r");
    assert_eq!(epic.description, "q\"w\\e");
}

#[test]
fn reader_rejects_bad_escapes() {
    for bad in [
        r#"{"last_item_id":0,"epics":{},"stories":{"1":{"name":"\x","description":"","status":"Open"}}}"#,
        r#"{"last_item_id":0,"epics":{},"stories":{"1":{"name":"\uD800","description":"","status":"Open"}}}"#,
        r#"{"last_item_id":0,"epics":{},"stories":{"1":{"name":"\u12G4","description":"","status":"Open"}}}"#,
    ] {
        assert_eq!(from_json(bad), Err(Error::CorruptState));
    }
}

#[test]
fn raw_control_characters_round_trip() {
    let mut db = JiraDatabase::new(MockDB::new());
    db.create_epic(Epic::new("line1\nline2".to_owned(), "tab\there".to_owned()))
        .unwrap();
    let state = db.read().unwrap();
    assert_eq!(from_json(&to_json(&state)).unwrap(), state);
}
