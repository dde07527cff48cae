use jira_tracker::db::{DBState, JiraDatabase, MockDB};
use jira_tracker::models::{Action, Epic, Story};
use jira_tracker::pages::{EpicDetail, HomePage, Page, StoryDetail};

fn empty_state() -> DBState {
    JiraDatabase::new(MockDB::new()).read().unwrap()
}

#[test]
fn handle_input_should_not_throw_on_not_existent_epic_id() {
    let page = HomePage {};
    let state = empty_state();

    let input = "";
    assert!(page.handle_input(&state, input).is_none());

    let input = "1";
    assert!(page.handle_input(&state, input).is_none());
}

#[test]
fn handle_input_should_not_throw_on_invalid_epic_id() {
    let page = HomePage {};
    let state = empty_state();

    let junk_input = "j983f2j";
    let junk_input_with_valid_prefix = "q983f2j";
    let input_with_trailing_white_spaces = "q\n";
    assert!(page.handle_input(&state, junk_input).is_none());
    assert!(page
        .handle_input(&state, junk_input_with_valid_prefix)
        .is_none());
    assert!(page
        .handle_input(&state, input_with_trailing_white_spaces)
        .is_none());
}

#[test]
fn handle_input_should_return_the_correct_actions() {
    let mut db = JiraDatabase::new(MockDB::new());
    let epic = Epic::new("".to_owned(), "".to_owned());
    let epic_id = db.create_epic(epic).unwrap();
    let state = db.read().unwrap();
    let page = HomePage {};

    let quit_input = "q";
    let crete_epic_input = "c";
    assert_eq!(page.handle_input(&state, quit_input), Some(Action::Exit));
    assert_eq!(
        page.handle_input(&state, &epic_id.to_string()),
        Some(Action::NavigateToEpicDetail { epic_id })
    );
    assert_eq!(
        page.handle_input(&state, crete_epic_input),
        Some(Action::CreateEpic)
    );
}

#[test]
fn input_should_not_throw_on_non_existent_story() {
    let mut db = JiraDatabase::new(MockDB::new());
    let epic_id = db
        .create_epic(Epic::new("".to_owned(), "".to_owned()))
        .unwrap();
    let state = db.read().unwrap();
    let page = EpicDetail { epic_id };

    let empty = "";
    let non_existent_story = "999";
    assert!(page.handle_input(&state, empty).is_none());
    assert!(page.handle_input(&state, non_existent_story).is_none());
}

#[test]
fn handle_input_should_not_throw_on_invalid_story_id() {
    let mut db = JiraDatabase::new(MockDB::new());
    let epic_id = db
        .create_epic(Epic::new("".to_owned(), "".to_owned()))
        .unwrap();
    let state = db.read().unwrap();
    let page = EpicDetail { epic_id };

    let junk_input = "j983f2j";
    let junk_input_with_valid_prefix = "q983f2j";
    let input_with_trailing_white_spaces = "q\n";
    assert!(page.handle_input(&state, junk_input).is_none());
    assert!(page
        .handle_input(&state, junk_input_with_valid_prefix)
        .is_none());
    assert!(page
        .handle_input(&state, input_with_trailing_white_spaces)
        .is_none());
}

#[test]
fn epic_detail_page_handle_input_should_return_correct_action() {
    let mut db = JiraDatabase::new(MockDB::new());
    let epic_id = db
        .create_epic(Epic::new("".to_owned(), "".to_owned()))
        .unwrap();
    let story = Story::new("".to_owned(), "".to_owned());
    let story_id = db.create_story(story, epic_id).unwrap();
    let state = db.read().unwrap();
    let page = EpicDetail { epic_id };

    let previous_page = "p";
    assert_eq!(
        page.handle_input(&state, previous_page),
        Some(Action::NavigateToPreviousPage)
    );

    let update_epic = "u";
    assert_eq!(
        page.handle_input(&state, update_epic),
        Some(Action::UpdateEpicStatus { epic_id }),
    );

    let delete_epic = "d";
    assert_eq!(
        page.handle_input(&state, delete_epic),
        Some(Action::DeleteEpic { epic_id }),
    );

    let create_story = "c";
    assert_eq!(
        page.handle_input(&state, create_story),
        Some(Action::CreateStory { epic_id }),
    );

    assert_eq!(
        page.handle_input(&state, &story_id.to_string()),
        Some(Action::NavigateToStoryDetail { epic_id, story_id })
    );
}

#[test]
fn handle_input_should_not_throw_on_invalid_input() {
    let mut db = JiraDatabase::new(MockDB::new());
    let epic_id = db
        .create_epic(Epic::new("".to_owned(), "".to_owned()))
        .unwrap();
    let story_id = db
        .create_story(Story::new("".to_owned(), "".to_owned()), epic_id)
        .unwrap();
    let state = db.read().unwrap();
    let page = StoryDetail { epic_id, story_id };

    let junk_input = "j983f2j";
    let junk_input_with_valid_prefix = "q983f2j";
    let input_with_trailing_white_spaces = "q\n";
    assert!(page.handle_input(&state, junk_input).is_none());
    assert!(page
        .handle_input(&state, junk_input_with_valid_prefix)
        .is_none());
    assert!(page
        .handle_input(&state, input_with_trailing_white_spaces)
        .is_none());
}

#[test]
fn story_detail_page_handle_input_should_return_correct_action() {
    let mut db = JiraDatabase::new(MockDB::new());
    let epic_id = db
        .create_epic(Epic::new("".to_owned(), "".to_owned()))
        .unwrap();
    let story_id = db
        .create_story(Story::new("".to_owned(), "".to_owned()), epic_id)
        .unwrap();
    let state = db.read().unwrap();
    let page = StoryDetail { epic_id, story_id };

    let previous_page = "p";
    assert_eq!(
        page.handle_input(&state, previous_page),
        Some(Action::NavigateToPreviousPage)
    );

    let update_epic = "u";
    assert_eq!(
        page.handle_input(&state, update_epic),
        Some(Action::UpdateStoryStatus { story_id }),
    );

    let delete_epic = "d";
    assert_eq!(
        page.handle_input(&state, delete_epic),
        Some(Action::DeleteStory { epic_id, story_id }),
    );
}

#[test]
fn epic_detail_interprets_d_as_delete_of_its_own_epic_on_any_state() {
    let empty = empty_state();
    let page = EpicDetail { epic_id: 7 };
    assert_eq!(
        page.handle_input(&empty, "d"),
        Some(Action::DeleteEpic { epic_id: 7 })
    );

    let mut db = JiraDatabase::new(MockDB::new());
    let other_id = db
        .create_epic(Epic::new("x".to_owned(), "y".to_owned()))
        .unwrap();
    assert_ne!(other_id, 7);
    let populated = db.read().unwrap();
    assert_eq!(
        page.handle_input(&populated, "d"),
        Some(Action::DeleteEpic { epic_id: 7 })
    );
}

#[test]
fn stale_pages_are_reported() {
    let mut db = JiraDatabase::new(MockDB::new());
    let epic_id = db
        .create_epic(Epic::new("".to_owned(), "".to_owned()))
        .unwrap();
    let state = db.read().unwrap();

    assert!(!HomePage {}.is_stale(&state));
    assert!(!EpicDetail { epic_id }.is_stale(&state));
    assert!(EpicDetail { epic_id: epic_id + 1 }.is_stale(&state));
    assert!(StoryDetail { epic_id, story_id: 99 }.is_stale(&state));
}
