use vstd::prelude::*;

verus! {

/// Lifecycle tag attached to both epics and stories. Any status may follow
/// any other; there is no ordering beyond display.
#[derive(Clone, Copy, Debug, PartialEq, Eq, Structural)]
pub enum Status {
    Open,
    InProgress,
    Resolved,
    Closed,
}

/// A parsed user action, decoupled from the raw input string that produced it.
#[derive(Debug, PartialEq, Eq, Structural)]
pub enum Action {
    NavigateToEpicDetail { epic_id: u32 },
    NavigateToStoryDetail { epic_id: u32, story_id: u32 },
    NavigateToPreviousPage,
    CreateEpic,
    UpdateEpicStatus { epic_id: u32 },
    DeleteEpic { epic_id: u32 },
    CreateStory { epic_id: u32 },
    UpdateStoryStatus { story_id: u32 },
    DeleteStory { epic_id: u32, story_id: u32 },
    Exit,
}

/// Mathematical model of an `Epic`.
pub struct EpicView {
    pub name: Seq<char>,
    pub description: Seq<char>,
    pub status: Status,
    pub stories: Seq<u32>,
}

/// Mathematical model of a `Story`.
pub struct StoryView {
    pub name: Seq<char>,
    pub description: Seq<char>,
    pub status: Status,
}

/// Top-level work item containing zero or more stories, referenced by id.
#[derive(Debug, PartialEq, Eq)]
pub struct Epic {
    pub name: String,
    pub description: String,
    pub status: Status,
    pub stories: Vec<u32>,
}

impl View for Epic {
    type V = EpicView;

    open spec fn view(&self) -> EpicView {
        EpicView {
            name: self.name@,
            description: self.description@,
            status: self.status,
            stories: self.stories@,
        }
    }
}

impl Epic {
    pub fn new(name: String, description: String) -> (r: Epic)
        ensures
            r@ == (EpicView {
                name: name@,
                description: description@,
                status: Status::Open,
                stories: Seq::<u32>::empty(),
            }),
    {
        let r = Epic { name, description, status: Status::Open, stories: Vec::new() };
        proof {
            assert(r@.stories =~= Seq::<u32>::empty());
        }
        r
    }
}

/// Copies a vector of ids element by element.
pub(crate) fn copy_ids(v: &Vec<u32>) -> (r: Vec<u32>)
    ensures
        r@ == v@,
{
    let mut r: Vec<u32> = Vec::new();
    let mut i: usize = 0;
    while i < v.len()
        invariant
            i <= v.len(),
            r@ == v@.take(i as int),
        decreases v.len() - i,
    {
        r.push(v[i]);
        proof {
            assert(r@ =~= v@.take(i + 1));
        }
        i = i + 1;
    }
    proof {
        assert(r@ =~= v@);
    }
    r
}

impl Clone for Epic {
    fn clone(&self) -> (r: Self)
        ensures
            r@ == self@,
    {
        Epic {
            name: self.name.clone(),
            description: self.description.clone(),
            status: self.status,
            stories: copy_ids(&self.stories),
        }
    }
}

/// Leaf work item belonging to exactly one epic; the relationship is kept
/// only in the owning epic's `stories` list.
#[derive(Debug, PartialEq, Eq)]
pub struct Story {
    pub name: String,
    pub description: String,
    pub status: Status,
}

impl View for Story {
    type V = StoryView;

    open spec fn view(&self) -> StoryView {
        StoryView { name: self.name@, description: self.description@, status: self.status }
    }
}

impl Story {
    pub fn new(name: String, description: String) -> (r: Story)
        ensures
            r@ == (StoryView { name: name@, description: description@, status: Status::Open }),
    {
        Story { name, description, status: Status::Open }
    }
}

impl Clone for Story {
    fn clone(&self) -> (r: Self)
        ensures
            r@ == self@,
    {
        Story {
            name: self.name.clone(),
            description: self.description.clone(),
            status: self.status,
        }
    }
}

impl crate::idmap::ViewDup for Epic {
    fn dup(&self) -> (r: Self) {
        self.clone()
    }
}

impl crate::idmap::ViewDup for Story {
    fn dup(&self) -> (r: Self) {
        self.clone()
    }
}

} // verus!
