use jira_tracker::db::{JiraDatabase, MockDB};
use jira_tracker::models::{Action, Epic, Status, Story};
use jira_tracker::navigator::{Navigator, Prompts};
use jira_tracker::pages::{AnyPage, EpicDetail, StoryDetail};

#[test]
fn should_start_on_home_page() {
    let db = JiraDatabase::new(MockDB::new());
    let nav = Navigator::new(db);

    assert_eq!(nav.get_page_count(), 1);

    let current_page = nav.get_current_page().unwrap();
    assert_eq!(matches!(current_page, AnyPage::Home(_)), true);
}

#[test]
fn handle_action_should_navigate_pages() {
    let db = JiraDatabase::new(MockDB::new());
    let mut nav = Navigator::new(db);

    nav.handle_action(Action::NavigateToEpicDetail { epic_id: 1 })
        .unwrap();
    let current_page = nav.get_current_page().unwrap();
    assert_eq!(nav.get_page_count(), 2);
    assert!(matches!(current_page, AnyPage::EpicDetail(_)));

    nav.handle_action(Action::NavigateToStoryDetail {
        epic_id: 1,
        story_id: 2,
    })
    .unwrap();
    let current_page = nav.get_current_page().unwrap();
    assert_eq!(nav.get_page_count(), 3);
    assert!(matches!(current_page, AnyPage::StoryDetail(_)));

    nav.handle_action(Action::NavigateToPreviousPage).unwrap();
    let current_page = nav.get_current_page().unwrap();
    assert_eq!(nav.get_page_count(), 2);
    assert!(matches!(current_page, AnyPage::EpicDetail(_)));

    nav.handle_action(Action::NavigateToPreviousPage).unwrap();
    let current_page = nav.get_current_page().unwrap();
    assert_eq!(nav.get_page_count(), 1);
    assert!(matches!(current_page, AnyPage::Home(_)));

    nav.handle_action(Action::NavigateToPreviousPage).unwrap();
    assert_eq!(nav.get_page_count(), 0);
    assert!(nav.get_current_page().is_none());

    nav.handle_action(Action::NavigateToPreviousPage).unwrap();
    assert_eq!(nav.get_page_count(), 0);
    assert!(nav.get_current_page().is_none());
}

#[test]
fn handle_exit_action_should_clear_pages() {
    let db = JiraDatabase::new(MockDB::new());
    let mut nav = Navigator::new(db);

    nav.handle_action(Action::NavigateToEpicDetail { epic_id: 1 })
        .unwrap();
    assert_eq!(nav.get_page_count(), 2);

    nav.handle_action(Action::Exit).unwrap();
    assert_eq!(nav.get_page_count(), 0);
}

#[test]
fn handle_action_should_handle_create_epic() {
    let db = JiraDatabase::new(MockDB::new());
    let mut nav = Navigator::new(db);

    let mut prompts = Prompts::new();
    prompts.create_epic = Epic::new("name".to_owned(), "description".to_owned());

    let db_state = nav.db.read().unwrap();
    assert_eq!(db_state.epics.len(), 0);

    nav.set_prompts(prompts);
    nav.handle_action(Action::CreateEpic).unwrap();

    let db_state = nav.db.read().unwrap();
    assert_eq!(db_state.epics.len(), 1);

    let (_, epic) = db_state.epics.entry_at(0);
    assert_eq!(epic.name, "name".to_owned());
    assert_eq!(epic.description, "description".to_owned());
}

#[test]
fn handle_action_should_update_epic() {
    let mut db = JiraDatabase::new(MockDB::new());
    let epic = Epic::new("name".to_owned(), "description".to_owned());
    let epic_id = db.create_epic(epic).unwrap();
    let db_state = db.read().unwrap();
    assert_eq!(db_state.epics.len(), 1);
    assert_ne!(
        db_state.epics.entry_at(0).1.status,
        Status::InProgress,
    );

    let mut prompts = Prompts::new();
    prompts.update_status = Some(Status::InProgress);
    let mut nav = Navigator::new(db);
    nav.set_prompts(prompts);

    nav.handle_action(Action::UpdateEpicStatus { epic_id })
        .unwrap();
    let db_state = nav.db.read().unwrap();
    assert_eq!(db_state.epics.len(), 1);
    assert_eq!(
        db_state.epics.entry_at(0).1.status,
        Status::InProgress,
    );
}

#[test]
fn handle_action_should_delete_epic() {
    let mut db = JiraDatabase::new(MockDB::new());
    let epic = Epic::new("name".to_owned(), "description".to_owned());
    let epic_id = db.create_epic(epic).unwrap();

    let mut prompts = Prompts::new();
    prompts.delete_epic = true;
    let mut nav = Navigator::new(db);
    nav.add_page(AnyPage::EpicDetail(EpicDetail { epic_id }));
    nav.set_prompts(prompts);

    let db_state = nav.db.read().unwrap();
    assert_eq!(db_state.epics.len(), 1);
    let current_page = nav.get_current_page().unwrap();
    assert_eq!(matches!(current_page, AnyPage::EpicDetail(_)), true);
    assert_eq!(nav.get_page_count(), 2);

    nav.handle_action(Action::DeleteEpic { epic_id }).unwrap();
    let current_page = nav.get_current_page().unwrap();
    assert_eq!(nav.get_page_count(), 1);
    assert_eq!(matches!(current_page, AnyPage::EpicDetail(_)), false);
    let db_state = nav.db.read().unwrap();
    assert!(db_state.epics.is_empty());
}

#[test]
fn handle_action_should_create_story() {
    let mut db = JiraDatabase::new(MockDB::new());
    let epic_id = db
        .create_epic(Epic::new("".to_owned(), "".to_owned()))
        .unwrap();

    let mut prompts = Prompts::new();
    prompts.create_story = Story::new("name".to_owned(), "description".to_owned());
    let mut nav = Navigator::new(db);
    nav.set_prompts(prompts);

    let db_state = nav.db.read().unwrap();
    assert!(db_state.stories.is_empty());

    nav.handle_action(Action::CreateStory { epic_id }).unwrap();

    let db_state = nav.db.read().unwrap();
    assert_eq!(db_state.stories.is_empty(), false);
    let (story_id, story) = db_state.stories.entry_at(0);
    assert_eq!(story.name, "name");
    assert_eq!(story.description, "description");

    let epic = db_state.epics.get(epic_id).unwrap();
    assert!(epic.stories.contains(&story_id));
}

#[test]
fn handle_action_should_update_story() {
    let mut db = JiraDatabase::new(MockDB::new());
    let epic_id = db
        .create_epic(Epic::new("".to_owned(), "".to_owned()))
        .unwrap();
    let story_id = db
        .create_story(Story::new("".to_owned(), "".to_owned()), epic_id)
        .unwrap();
    let db_state = db.read().unwrap();
    assert_ne!(
        db_state.stories.get(story_id).unwrap().status,
        Status::InProgress
    );

    let mut prompts = Prompts::new();
    prompts.update_status = Some(Status::InProgress);
    let mut nav = Navigator::new(db);
    nav.set_prompts(prompts);

    nav.handle_action(Action::UpdateStoryStatus { story_id })
        .unwrap();

    let db_state = nav.db.read().unwrap();
    assert_eq!(
        db_state.stories.get(story_id).unwrap().status,
        Status::InProgress
    );
}

#[test]
fn handle_action_should_delete_story() {
    let mut db = JiraDatabase::new(MockDB::new());
    let epic_id = db
        .create_epic(Epic::new("".to_owned(), "".to_owned()))
        .unwrap();
    let story_id = db
        .create_story(Story::new("".to_owned(), "".to_owned()), epic_id)
        .unwrap();
    let db_state = db.read().unwrap();
    assert_eq!(db_state.stories.is_empty(), false);
    assert!(db_state
        .epics
        .get(epic_id)
        .unwrap()
        .stories
        .contains(&story_id));

    let mut prompts = Prompts::new();
    prompts.delete_story = true;
    let mut nav = Navigator::new(db);
    nav.set_prompts(prompts);
    nav.add_page(AnyPage::StoryDetail(StoryDetail { epic_id, story_id }));
    let current_page = nav.get_current_page().unwrap();
    assert_eq!(matches!(current_page, AnyPage::StoryDetail(_)), true);

    nav.handle_action(Action::DeleteStory { epic_id, story_id })
        .unwrap();

    let db_state = nav.db.read().unwrap();
    assert!(db_state.stories.is_empty());
    assert_eq!(
        db_state
            .epics
            .get(epic_id)
            .unwrap()
            .stories
            .contains(&story_id),
        false
    );
    let current_page = nav.get_current_page().unwrap();
    assert_eq!(matches!(current_page, AnyPage::StoryDetail(_)), false);
}

#[test]
fn delete_epic_scenario_removes_epic_and_story_and_pops_page() {
    let mut db = JiraDatabase::new(MockDB::new());
    let epic_id = db
        .create_epic(Epic::new("E".to_owned(), "".to_owned()))
        .unwrap();
    assert_eq!(epic_id, 1);
    let story_id = db
        .create_story(Story::new("S".to_owned(), "".to_owned()), epic_id)
        .unwrap();
    assert_eq!(story_id, 2);

    let mut prompts = Prompts::new();
    prompts.delete_epic = true;
    let mut nav = Navigator::new(db);
    nav.set_prompts(prompts);
    nav.add_page(AnyPage::EpicDetail(EpicDetail { epic_id }));

    nav.handle_action(Action::DeleteEpic { epic_id }).unwrap();

    let db_state = nav.db.read().unwrap();
    assert!(db_state.epics.get(1).is_none());
    assert!(db_state.stories.get(2).is_none());
    assert!(matches!(nav.get_current_page().unwrap(), AnyPage::Home(_)));
}

#[test]
fn declined_confirmation_leaves_everything_unchanged() {
    let mut db = JiraDatabase::new(MockDB::new());
    let epic_id = db
        .create_epic(Epic::new("".to_owned(), "".to_owned()))
        .unwrap();
    let mut nav = Navigator::new(db);
    nav.add_page(AnyPage::EpicDetail(EpicDetail { epic_id }));

    nav.handle_action(Action::DeleteEpic { epic_id }).unwrap();

    assert_eq!(nav.get_page_count(), 2);
    assert_eq!(nav.db.read().unwrap().epics.len(), 1);
}
