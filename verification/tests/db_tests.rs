use jira_tracker::db::{DBState, Error, JiraDatabase, MockDB};
use jira_tracker::idmap::IdMap;
use jira_tracker::models::{Epic, Status, Story};

#[test]
fn create_epic_should_work() {
    let mut db = JiraDatabase::new(MockDB::new());
    let epic = Epic::new("Epic 1".to_owned(), "Epic 1 description".to_owned());
    let result = db.create_epic(epic.clone());

    assert!(result.is_ok());

    let id = result.unwrap();
    let db_state = db.read().unwrap();

    let expected_id = 1;

    assert_eq!(id, expected_id);
    assert_eq!(db_state.last_item_id, expected_id);
    assert_eq!(db_state.epics.get(id), Some(&epic));
}

#[test]
fn create_story_should_error_if_invalid_epic_id() {
    let mut db = JiraDatabase::new(MockDB::new());
    let non_existent_epic_id = 999;
    let story = Story::new("".to_owned(), "".to_owned());
    let result = db.create_story(story, non_existent_epic_id);
    assert!(result.is_err());
}

#[test]
fn create_story_should_work() {
    let mut db = JiraDatabase::new(MockDB::new());
    let epic = Epic::new("Epic_1".to_owned(), "Custom_epic".to_owned());
    let story = Story::new("story_1".to_owned(), "description_1".to_owned());

    let create_epic_result = db.create_epic(epic.clone());
    assert!(create_epic_result.is_ok());

    let created_epic_id = create_epic_result.unwrap();
    let created_story_id = db.create_story(story.clone(), created_epic_id);

    let expected_epic_id = 1;
    let expected_story_id = 2;
    let db_state = db.read().unwrap();

    assert!(created_story_id.is_ok());
    assert_eq!(db_state.last_item_id, expected_story_id);
    assert_eq!(db_state.stories.get(expected_story_id), Some(&story));
    assert!(db_state
        .epics
        .get(expected_epic_id)
        .unwrap()
        .stories
        .contains(&expected_story_id));
}

#[test]
fn delete_epic_should_error_if_invalid_epic_id() {
    let mut db = JiraDatabase::new(MockDB::new());

    let inesistent_epic_id = 999;
    let result = db.delete_epic(inesistent_epic_id);

    assert!(result.is_err());
}

#[test]
fn delete_epic_should_work() {
    let mut db = JiraDatabase::new(MockDB::new());

    let epic = Epic::new("".to_owned(), "".to_owned());
    let story = Story::new("".to_owned(), "".to_owned());

    let created_epic_id = db.create_epic(epic.clone()).unwrap();
    let created_story_id = db.create_story(story, created_epic_id).unwrap();
    let created_epic_db_state = db.read().unwrap();
    assert_eq!(created_epic_db_state.last_item_id, 2);

    let result = db.delete_epic(created_epic_id);
    let db_state = db.read().unwrap();
    let expected_last_item_id = 2;

    assert_eq!(db_state.last_item_id, expected_last_item_id);
    assert!(db_state.epics.get(created_epic_id).is_none());
    assert!(db_state.stories.get(created_story_id).is_none());
    assert!(result.is_ok());
}

#[test]
fn delete_epic_twice_should_error_with_epic_not_found() {
    let mut db = JiraDatabase::new(MockDB::new());
    let epic_id = db
        .create_epic(Epic::new("".to_owned(), "".to_owned()))
        .unwrap();
    assert!(db.delete_epic(epic_id).is_ok());
    assert_eq!(db.delete_epic(epic_id), Err(Error::EpicNotFound));
}

#[test]
fn create_story_on_missing_epic_leaves_state_unchanged() {
    let mut db = JiraDatabase::new(MockDB::new());
    let epic_id = db
        .create_epic(Epic::new("a".to_owned(), "b".to_owned()))
        .unwrap();
    let before = db.read().unwrap();

    let result = db.create_story(Story::new("s".to_owned(), "d".to_owned()), epic_id + 41);
    assert_eq!(result, Err(Error::EpicNotFound));

    let after = db.read().unwrap();
    assert_eq!(before, after);
}

#[test]
fn delete_story_should_remove_story_and_reference() {
    let mut db = JiraDatabase::new(MockDB::new());
    let epic_id = db
        .create_epic(Epic::new("".to_owned(), "".to_owned()))
        .unwrap();
    let story_id = db
        .create_story(Story::new("".to_owned(), "".to_owned()), epic_id)
        .unwrap();

    assert!(db.delete_story(epic_id, story_id).is_ok());

    let db_state = db.read().unwrap();
    assert!(db_state.stories.get(story_id).is_none());
    assert!(!db_state.epics.get(epic_id).unwrap().stories.contains(&story_id));

    assert_eq!(db.delete_story(epic_id + 100, story_id), Err(Error::EpicNotFound));
}

#[test]
fn update_epic_status_should_error_if_invalid_epic_id() {
    let mut db = JiraDatabase::new(MockDB::new());

    let inesistent_epic_id = 999;
    let result = db.update_epic_status(inesistent_epic_id, Status::InProgress);
    assert!(result.is_err());
}

#[test]
fn update_epic_status_should_work() {
    let mut db = JiraDatabase::new(MockDB::new());

    let epic = Epic::new("".to_owned(), "".to_owned());
    let epic_id = db.create_epic(epic.clone()).unwrap();
    assert_ne!(&epic.status, &Status::Resolved);

    let result = db.update_epic_status(epic_id, Status::Resolved);
    assert!(result.is_ok());

    let db_state = db.read().unwrap();
    assert_eq!(db_state.epics.get(epic_id).unwrap().status, Status::Resolved);
}

#[test]
fn update_story_status_should_error_if_invalid_story_id() {
    let mut db = JiraDatabase::new(MockDB::new());
    let inesistent_story_status = 999;

    let result = db.update_story_status(inesistent_story_status, Status::InProgress);
    assert!(result.is_err());
}

#[test]
fn update_story_should_work() {
    let mut db = JiraDatabase::new(MockDB::new());
    let epic = Epic::new("".to_owned(), "".to_owned());
    let story = Story::new("".to_owned(), "".to_owned());

    let epic_id = db.create_epic(epic.clone()).unwrap();
    let story_id = db.create_story(story.clone(), epic_id).unwrap();
    assert_ne!(story.status, Status::Resolved);

    let update_story_status_result = db.update_story_status(story_id, Status::Resolved);
    let db_state = db.read().unwrap();
    assert!(update_story_status_result.is_ok());
    assert_eq!(
        db_state.stories.get(story_id).unwrap().status,
        Status::Resolved
    );
}

#[test]
fn monotonic_ids_across_mixed_creates() {
    let mut db = JiraDatabase::new(MockDB::new());
    let id1 = db
        .create_epic(Epic::new("".to_owned(), "".to_owned()))
        .unwrap();
    let id2 = db
        .create_story(Story::new("".to_owned(), "".to_owned()), id1)
        .unwrap();
    let id3 = db
        .create_epic(Epic::new("".to_owned(), "".to_owned()))
        .unwrap();
    db.delete_epic(id1).unwrap();
    let id4 = db
        .create_epic(Epic::new("".to_owned(), "".to_owned()))
        .unwrap();
    assert!(id1 < id2 && id2 < id3 && id3 < id4);
}

#[test]
fn create_near_the_top_of_the_id_space() {
    let mut state = DBState {
        last_item_id: u32::MAX - 1,
        epics: IdMap::new(),
        stories: IdMap::new(),
    };
    let id = state.create_epic(Epic::new("top".to_owned(), "".to_owned()));
    assert_eq!(id, u32::MAX);
    assert_eq!(state.last_item_id, u32::MAX);
}
