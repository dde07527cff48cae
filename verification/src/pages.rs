use vstd::prelude::*;
use vstd::string::StrSliceExecFns;

use crate::db::{DBState, DbView};
use crate::models::Action;
use crate::textutil::{parse_u32, parse_u32_spec};

verus! {

/// The input is exactly the one given character.
pub open spec fn is_char(s: Seq<char>, c: char) -> bool {
    s.len() == 1 && s[0] == c
}

fn input_is(s: &str, c: char) -> (r: bool)
    ensures
        r == is_char(s@, c),
{
    if s.unicode_len() == 1 {
        s.get_char(0) == c
    } else {
        false
    }
}

/// The capability every interactive screen satisfies: translate raw input
/// into an intent, and tell whether its bound ids still resolve against the
/// given aggregate state. Screens never mutate anything; rendering itself is
/// plain terminal output and lives with the driving loop.
pub trait Page: Sized {
    /// What `handle_input` returns, as a function of the state and the input.
    spec fn interpret(&self, v: DbView, input: Seq<char>) -> Option<Action>;

    /// Whether the screen's bound ids resolve in the given state.
    spec fn resolves_in(&self, v: DbView) -> bool;

    /// Translates one line of input into an intent; unrecognized input
    /// (including malformed or unknown numeric ids) yields no intent.
    fn handle_input(&self, state: &DBState, input: &str) -> (r: Option<Action>)
        ensures
            r == self.interpret(state@, input@),
    ;

    /// A stale screen is one whose bound id no longer resolves; the driving
    /// loop pops it after reporting `ScreenStale`.
    fn is_stale(&self, state: &DBState) -> (r: bool)
        ensures
            r == !self.resolves_in(state@),
    ;
}

/// The screen listing all epics.
#[derive(Clone, Copy, Debug, PartialEq, Eq, Structural)]
pub struct HomePage {}

/// What the home screen makes of one line of input.
pub open spec fn home_interpret(v: DbView, input: Seq<char>) -> Option<Action> {
    if is_char(input, 'q') {
        Some(Action::Exit)
    } else if is_char(input, 'c') {
        Some(Action::CreateEpic)
    } else {
        match parse_u32_spec(input) {
            Some(id) => if v.epics.dom().contains(id) {
                Some(Action::NavigateToEpicDetail { epic_id: id })
            } else {
                None
            },
            None => None,
        }
    }
}

impl Page for HomePage {
    open spec fn interpret(&self, v: DbView, input: Seq<char>) -> Option<Action> {
        home_interpret(v, input)
    }

    open spec fn resolves_in(&self, v: DbView) -> bool {
        true
    }

    fn handle_input(&self, state: &DBState, input: &str) -> (r: Option<Action>) {
        if input_is(input, 'q') {
            Some(Action::Exit)
        } else if input_is(input, 'c') {
            Some(Action::CreateEpic)
        } else {
            match parse_u32(input) {
                Some(id) => {
                    if state.epics.contains_key(id) {
                        Some(Action::NavigateToEpicDetail { epic_id: id })
                    } else {
                        None
                    }
                },
                None => None,
            }
        }
    }

    fn is_stale(&self, state: &DBState) -> (r: bool) {
        false
    }
}

/// The screen showing one epic and its stories, bound to the epic's id.
#[derive(Clone, Copy, Debug, PartialEq, Eq, Structural)]
pub struct EpicDetail {
    pub epic_id: u32,
}

/// What an epic-detail screen makes of one line of input.
pub open spec fn epic_detail_interpret(
    epic_id: u32,
    v: DbView,
    input: Seq<char>,
) -> Option<Action> {
    if is_char(input, 'p') {
        Some(Action::NavigateToPreviousPage)
    } else if is_char(input, 'u') {
        Some(Action::UpdateEpicStatus { epic_id })
    } else if is_char(input, 'd') {
        Some(Action::DeleteEpic { epic_id })
    } else if is_char(input, 'c') {
        Some(Action::CreateStory { epic_id })
    } else {
        match parse_u32_spec(input) {
            Some(story_id) => if v.stories.dom().contains(story_id) {
                Some(Action::NavigateToStoryDetail { epic_id, story_id })
            } else {
                None
            },
            None => None,
        }
    }
}

impl Page for EpicDetail {
    open spec fn interpret(&self, v: DbView, input: Seq<char>) -> Option<Action> {
        epic_detail_interpret(self.epic_id, v, input)
    }

    open spec fn resolves_in(&self, v: DbView) -> bool {
        v.epics.dom().contains(self.epic_id)
    }

    fn handle_input(&self, state: &DBState, input: &str) -> (r: Option<Action>) {
        let epic_id = self.epic_id;
        if input_is(input, 'p') {
            Some(Action::NavigateToPreviousPage)
        } else if input_is(input, 'u') {
            Some(Action::UpdateEpicStatus { epic_id })
        } else if input_is(input, 'd') {
            Some(Action::DeleteEpic { epic_id })
        } else if input_is(input, 'c') {
            Some(Action::CreateStory { epic_id })
        } else {
            match parse_u32(input) {
                Some(story_id) => {
                    if state.stories.contains_key(story_id) {
                        Some(Action::NavigateToStoryDetail { epic_id, story_id })
                    } else {
                        None
                    }
                },
                None => None,
            }
        }
    }

    fn is_stale(&self, state: &DBState) -> (r: bool) {
        !state.epics.contains_key(self.epic_id)
    }
}

/// The screen showing one story, bound to its owning epic's id and its own.
#[derive(Clone, Copy, Debug, PartialEq, Eq, Structural)]
pub struct StoryDetail {
    pub epic_id: u32,
    pub story_id: u32,
}

/// What a story-detail screen makes of one line of input; it has no numeric
/// branch.
pub open spec fn story_detail_interpret(
    epic_id: u32,
    story_id: u32,
    input: Seq<char>,
) -> Option<Action> {
    if is_char(input, 'p') {
        Some(Action::NavigateToPreviousPage)
    } else if is_char(input, 'u') {
        Some(Action::UpdateStoryStatus { story_id })
    } else if is_char(input, 'd') {
        Some(Action::DeleteStory { epic_id, story_id })
    } else {
        None
    }
}

impl Page for StoryDetail {
    open spec fn interpret(&self, v: DbView, input: Seq<char>) -> Option<Action> {
        story_detail_interpret(self.epic_id, self.story_id, input)
    }

    open spec fn resolves_in(&self, v: DbView) -> bool {
        v.stories.dom().contains(self.story_id)
    }

    fn handle_input(&self, state: &DBState, input: &str) -> (r: Option<Action>) {
        if input_is(input, 'p') {
            Some(Action::NavigateToPreviousPage)
        } else if input_is(input, 'u') {
            Some(Action::UpdateStoryStatus { story_id: self.story_id })
        } else if input_is(input, 'd') {
            Some(Action::DeleteStory { epic_id: self.epic_id, story_id: self.story_id })
        } else {
            None
        }
    }

    fn is_stale(&self, state: &DBState) -> (r: bool) {
        !state.stories.contains_key(self.story_id)
    }
}

/// One of the three screens, as stacked by the navigator.
#[derive(Clone, Copy, Debug, PartialEq, Eq, Structural)]
pub enum AnyPage {
    Home(HomePage),
    EpicDetail(EpicDetail),
    StoryDetail(StoryDetail),
}

impl Page for AnyPage {
    open spec fn interpret(&self, v: DbView, input: Seq<char>) -> Option<Action> {
        match self {
            AnyPage::Home(p) => p.interpret(v, input),
            AnyPage::EpicDetail(p) => p.interpret(v, input),
            AnyPage::StoryDetail(p) => p.interpret(v, input),
        }
    }

    open spec fn resolves_in(&self, v: DbView) -> bool {
        match self {
            AnyPage::Home(p) => p.resolves_in(v),
            AnyPage::EpicDetail(p) => p.resolves_in(v),
            AnyPage::StoryDetail(p) => p.resolves_in(v),
        }
    }

    fn handle_input(&self, state: &DBState, input: &str) -> (r: Option<Action>) {
        match self {
            AnyPage::Home(p) => p.handle_input(state, input),
            AnyPage::EpicDetail(p) => p.handle_input(state, input),
            AnyPage::StoryDetail(p) => p.handle_input(state, input),
        }
    }

    fn is_stale(&self, state: &DBState) -> (r: bool) {
        match self {
            AnyPage::Home(p) => p.is_stale(state),
            AnyPage::EpicDetail(p) => p.is_stale(state),
            AnyPage::StoryDetail(p) => p.is_stale(state),
        }
    }
}

/// An epic-detail screen always interprets `"d"` as deleting its own bound
/// epic, regardless of the store's contents.
pub proof fn lemma_epic_detail_d_deletes_bound_epic(
    page: EpicDetail,
    v: DbView,
    input: Seq<char>,
)
    requires
        is_char(input, 'd'),
    ensures
        page.interpret(v, input) == Some(Action::DeleteEpic { epic_id: page.epic_id }),
{
}

} // verus!
