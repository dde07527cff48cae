use vstd::prelude::*;

use crate::idmap::IdMap;
use crate::models::{Epic, EpicView, Status, Story, StoryView};

verus! {

/// Everything that can go wrong in the store or on a screen.
#[derive(Clone, Copy, Debug, PartialEq, Eq, Structural)]
pub enum Error {
    /// The backing medium could not be opened, read or written.
    StoreUnavailable,
    /// The backing medium's contents do not parse into the expected shape.
    CorruptState,
    /// A referenced epic id was absent at mutation time.
    EpicNotFound,
    /// A referenced story id was absent at mutation time.
    StoryNotFound,
    /// A rendered screen's bound id no longer resolves.
    ScreenStale,
}

/// Mathematical model of the whole persisted dataset: the monotonic id
/// counter and the two entity maps, treated as one consistency unit.
#[verifier::ext_equal]
pub struct DbView {
    pub last_item_id: u32,
    pub epics: Map<u32, EpicView>,
    pub stories: Map<u32, StoryView>,
}

/// The whole persisted dataset. Epics and stories share one id space,
/// numbered from 1; `last_item_id` never decreases and ids are never reused.
#[derive(Debug, PartialEq, Eq)]
pub struct DBState {
    pub last_item_id: u32,
    pub epics: IdMap<Epic>,
    pub stories: IdMap<Story>,
}

impl View for DBState {
    type V = DbView;

    open spec fn view(&self) -> DbView {
        DbView {
            last_item_id: self.last_item_id,
            epics: self.epics@,
            stories: self.stories@,
        }
    }
}

impl Clone for DBState {
    fn clone(&self) -> (r: Self)
        ensures
            r@ == self@,
    {
        let r = DBState {
            last_item_id: self.last_item_id,
            epics: self.epics.clone(),
            stories: self.stories.clone(),
        };
        r
    }
}

pub open spec fn empty_db_view() -> DbView {
    DbView { last_item_id: 0, epics: Map::empty(), stories: Map::empty() }
}

impl DBState {
    pub fn empty() -> (r: DBState)
        ensures
            r@ == empty_db_view(),
    {
        let r = DBState { last_item_id: 0, epics: IdMap::new(), stories: IdMap::new() };
        proof {
            assert(r@.epics =~= empty_db_view().epics);
            assert(r@.stories =~= empty_db_view().stories);
        }
        r
    }
}

/// A successful `create_epic`: the counter advances by one, the epic is
/// inserted under the new id, and the stories are untouched.
pub open spec fn create_epic_step(pre: DbView, epic: EpicView, post: DbView, id: u32) -> bool {
    &&& pre.last_item_id < u32::MAX
    &&& id == pre.last_item_id + 1
    &&& post.last_item_id == id
    &&& post.epics == pre.epics.insert(id, epic)
    &&& post.stories == pre.stories
}

/// A successful `create_story`: the counter advances by one, the story is
/// inserted under the new id, and that id is appended to the parent epic's
/// story list.
pub open spec fn create_story_step(
    pre: DbView,
    story: StoryView,
    epic_id: u32,
    post: DbView,
    id: u32,
) -> bool {
    &&& pre.epics.dom().contains(epic_id)
    &&& pre.last_item_id < u32::MAX
    &&& id == pre.last_item_id + 1
    &&& post.last_item_id == id
    &&& post.stories == pre.stories.insert(id, story)
    &&& post.epics == pre.epics.insert(
        epic_id,
        (EpicView { stories: pre.epics[epic_id].stories.push(id), ..pre.epics[epic_id] }),
    )
}

/// A successful `delete_epic`: every story named by the epic's list leaves
/// the story map (absent ids are silently ignored), then the epic itself is
/// removed. The counter is *not* decremented: ids are never reused.
pub open spec fn delete_epic_step(pre: DbView, epic_id: u32, post: DbView) -> bool {
    &&& pre.epics.dom().contains(epic_id)
    &&& post.last_item_id == pre.last_item_id
    &&& post.epics == pre.epics.remove(epic_id)
    &&& post.stories == pre.stories.remove_keys(pre.epics[epic_id].stories.to_set())
}

/// A successful `update_epic_status`: only the named epic's status changes.
pub open spec fn update_epic_status_step(
    pre: DbView,
    epic_id: u32,
    status: Status,
    post: DbView,
) -> bool {
    &&& pre.epics.dom().contains(epic_id)
    &&& post.last_item_id == pre.last_item_id
    &&& post.epics == pre.epics.insert(epic_id, (EpicView { status, ..pre.epics[epic_id] }))
    &&& post.stories == pre.stories
}

/// A successful `update_story_status`: only the named story's status changes.
pub open spec fn update_story_status_step(
    pre: DbView,
    story_id: u32,
    status: Status,
    post: DbView,
) -> bool {
    &&& pre.stories.dom().contains(story_id)
    &&& post.last_item_id == pre.last_item_id
    &&& post.epics == pre.epics
    &&& post.stories == pre.stories.insert(
        story_id,
        (StoryView { status, ..pre.stories[story_id] }),
    )
}

/// An id list with every occurrence of one id removed, order kept.
pub open spec fn without_id(list: Seq<u32>, id: u32) -> Seq<u32> {
    list.filter(|s: u32| s != id)
}

/// A successful `delete_story`: the story leaves the story map and its id
/// leaves the named epic's list. Absence of the story itself is tolerated;
/// only the epic must exist.
pub open spec fn delete_story_step(
    pre: DbView,
    epic_id: u32,
    story_id: u32,
    post: DbView,
) -> bool {
    &&& pre.epics.dom().contains(epic_id)
    &&& post.last_item_id == pre.last_item_id
    &&& post.stories == pre.stories.remove(story_id)
    &&& post.epics == pre.epics.insert(
        epic_id,
        (EpicView {
            stories: without_id(pre.epics[epic_id].stories, story_id),
            ..pre.epics[epic_id]
        }),
    )
}

impl DBState {
    /// In-memory part of `createEpic`: computes the next id, inserts the
    /// epic under it and advances the counter.
    pub fn create_epic(&mut self, epic: Epic) -> (id: u32)
        requires
            old(self).last_item_id < u32::MAX,
        ensures
            create_epic_step(old(self)@, epic@, final(self)@, id),
    {
        let id = self.last_item_id + 1;
        self.last_item_id = id;
        self.epics.insert(id, epic);
        id
    }

    /// In-memory part of `createStory`: fails with `EpicNotFound` if and only
    /// if `epic_id` is absent, leaving the state unchanged; otherwise inserts
    /// the story under the next id and appends that id to the parent epic.
    pub fn create_story(&mut self, story: Story, epic_id: u32) -> (r: Result<u32, Error>)
        requires
            old(self).last_item_id < u32::MAX,
        ensures
            match r {
                Ok(id) => create_story_step(old(self)@, story@, epic_id, final(self)@, id),
                Err(e) => {
                    &&& e == Error::EpicNotFound
                    &&& !old(self)@.epics.dom().contains(epic_id)
                    &&& *final(self) == *old(self)
                },
            },
    {
        let new_epic = match self.epics.get(epic_id) {
            Some(e) => e.clone(),
            None => { return Err(Error::EpicNotFound) },
        };
        let mut new_epic = new_epic;
        let id = self.last_item_id + 1;
        self.last_item_id = id;
        new_epic.stories.push(id);
        proof {
            assert(new_epic@ == (EpicView {
                stories: old(self)@.epics[epic_id].stories.push(id),
                ..old(self)@.epics[epic_id]
            }));
        }
        self.stories.insert(id, story);
        self.epics.insert(epic_id, new_epic);
        Ok(id)
    }

    /// In-memory part of `deleteEpic`: fails with `EpicNotFound` if and only
    /// if `epic_id` is absent; otherwise removes the epic's stories and then
    /// the epic. The counter keeps its value.
    pub fn delete_epic(&mut self, epic_id: u32) -> (r: Result<(), Error>)
        ensures
            match r {
                Ok(u) => delete_epic_step(old(self)@, epic_id, final(self)@),
                Err(e) => {
                    &&& e == Error::EpicNotFound
                    &&& !old(self)@.epics.dom().contains(epic_id)
                    &&& *final(self) == *old(self)
                },
            },
    {
        let sids = match self.epics.get(epic_id) {
            Some(e) => crate::models::copy_ids(&e.stories),
            None => { return Err(Error::EpicNotFound) },
        };
        let ghost all = old(self)@.epics[epic_id].stories;
        let mut i: usize = 0;
        while i < sids.len()
            invariant
                i <= sids.len(),
                sids@ == all,
                self.last_item_id == old(self).last_item_id,
                self.epics == old(self).epics,
                self.stories@ == old(self)@.stories.remove_keys(all.take(i as int).to_set()),
            decreases sids.len() - i,
        {
            self.stories.remove(sids[i]);
            proof {
                assert(all.take(i + 1).to_set() =~= all.take(i as int).to_set().insert(
                    all[i as int],
                )) by {
                    assert forall|x: u32| all.take(i + 1).contains(x) implies all.take(
                        i as int,
                    ).to_set().insert(all[i as int]).contains(x) by {
                        let k = choose|k: int| 0 <= k < i + 1 && #[trigger] all.take(i + 1)[k]
                            == x;
                        if k < i {
                            assert(all.take(i as int)[k] == x);
                        }
                    }
                    assert forall|x: u32|
                        all.take(i as int).to_set().insert(all[i as int]).contains(x) implies all
                        .take(i + 1).contains(x) by {
                        if all.take(i as int).contains(x) {
                            let k = choose|k: int| 0 <= k < i && all.take(i as int)[k] == x;
                            assert(all.take(i + 1)[k] == x);
                        } else {
                            assert(all.take(i + 1)[i as int] == x);
                        }
                    }
                }
                assert(self.stories@ =~= old(self)@.stories.remove_keys(
                    all.take(i + 1).to_set(),
                ));
            }
            i = i + 1;
        }
        proof {
            assert(all.take(all.len() as int) =~= all);
        }
        self.epics.remove(epic_id);
        Ok(())
    }

    /// In-memory part of `updateEpicStatus`: fails with `EpicNotFound` if and
    /// only if `epic_id` is absent; no validation of status transitions.
    pub fn update_epic_status(&mut self, epic_id: u32, status: Status) -> (r: Result<(), Error>)
        ensures
            match r {
                Ok(u) => update_epic_status_step(old(self)@, epic_id, status, final(self)@),
                Err(e) => {
                    &&& e == Error::EpicNotFound
                    &&& !old(self)@.epics.dom().contains(epic_id)
                    &&& *final(self) == *old(self)
                },
            },
    {
        let mut new_epic = match self.epics.get(epic_id) {
            Some(e) => e.clone(),
            None => { return Err(Error::EpicNotFound) },
        };
        new_epic.status = status;
        self.epics.insert(epic_id, new_epic);
        Ok(())
    }

    /// In-memory part of `updateStoryStatus`: fails with `StoryNotFound` if
    /// and only if `story_id` is absent; no validation of status transitions.
    pub fn update_story_status(&mut self, story_id: u32, status: Status) -> (r: Result<(), Error>)
        ensures
            match r {
                Ok(u) => update_story_status_step(old(self)@, story_id, status, final(self)@),
                Err(e) => {
                    &&& e == Error::StoryNotFound
                    &&& !old(self)@.stories.dom().contains(story_id)
                    &&& *final(self) == *old(self)
                },
            },
    {
        let mut new_story = match self.stories.get(story_id) {
            Some(s) => s.clone(),
            None => { return Err(Error::StoryNotFound) },
        };
        new_story.status = status;
        self.stories.insert(story_id, new_story);
        Ok(())
    }

    /// In-memory part of `deleteStory`: fails with `EpicNotFound` if and only
    /// if the epic is absent; the story's absence from the map or the list is
    /// tolerated.
    pub fn delete_story(&mut self, epic_id: u32, story_id: u32) -> (r: Result<(), Error>)
        ensures
            match r {
                Ok(u) => delete_story_step(old(self)@, epic_id, story_id, final(self)@),
                Err(e) => {
                    &&& e == Error::EpicNotFound
                    &&& !old(self)@.epics.dom().contains(epic_id)
                    &&& *final(self) == *old(self)
                },
            },
    {
        let epic = match self.epics.get(epic_id) {
            Some(e) => e.clone(),
            None => { return Err(Error::EpicNotFound) },
        };
        let ghost all = old(self)@.epics[epic_id].stories;
        let mut kept: Vec<u32> = Vec::new();
        let mut i: usize = 0;
        while i < epic.stories.len()
            invariant
                i <= epic.stories.len(),
                epic.stories@ == all,
                kept@ == without_id(all.take(i as int), story_id),
            decreases epic.stories.len() - i,
        {
            proof {
                reveal(Seq::filter);
                assert(all.take(i + 1).drop_last() =~= all.take(i as int));
                assert(all.take(i + 1).last() == all[i as int]);
            }
            if epic.stories[i] != story_id {
                kept.push(epic.stories[i]);
            }
            i = i + 1;
        }
        proof {
            assert(all.take(all.len() as int) =~= all);
        }
        let mut new_epic = epic;
        new_epic.stories = kept;
        proof {
            assert(new_epic@ == (EpicView {
                stories: without_id(all, story_id),
                ..old(self)@.epics[epic_id]
            }));
        }
        self.stories.remove(story_id);
        self.epics.insert(epic_id, new_epic);
        Ok(())
    }
}

/// The abstraction over a backing medium: a full read and a full write of
/// the aggregate state.
pub trait Database: Sized {
    /// The state this medium holds, where it can be pinned down statically.
    /// An implementation that overrides the default thereby promises a
    /// dependable medium: reads and writes succeed and agree with `stored`.
    /// One that leaves the default `None` (a file someone else may rewrite)
    /// only has its failures classified; nothing else is believed of it.
    open spec fn stored(&self) -> Option<DbView> {
        None
    }

    /// Reads the full aggregate state.
    fn read(&self) -> (r: Result<DBState, Error>)
        ensures
            (self.stored() matches Some(v) ==> r matches Ok(s) && s@ == v),
            (r matches Err(e) ==> (e == Error::StoreUnavailable || e == Error::CorruptState)),
    ;

    /// Replaces the backing medium's contents with the given state.
    fn write(&mut self, state: &DBState) -> (r: Result<(), Error>)
        ensures
            (old(self).stored() is Some ==> r is Ok && final(self).stored() == Some(state@)),
            (r matches Err(e) ==> e == Error::StoreUnavailable),
    ;
}

/// In-memory backing medium: reads and writes always succeed and return the
/// last written state. Starts out holding the empty aggregate state.
pub struct MockDB {
    last_written_state: DBState,
}

impl MockDB {
    pub fn new() -> (r: MockDB)
        ensures
            r.stored() == Some(empty_db_view()),
    {
        MockDB { last_written_state: DBState::empty() }
    }
}

impl Database for MockDB {
    closed spec fn stored(&self) -> Option<DbView> {
        Some(self.last_written_state@)
    }

    fn read(&self) -> (r: Result<DBState, Error>) {
        Ok(self.last_written_state.clone())
    }

    fn write(&mut self, state: &DBState) -> (r: Result<(), Error>) {
        self.last_written_state = state.clone();
        Ok(())
    }
}

/// The store: composes a full read, an in-memory mutation and a full write
/// into one atomic-looking operation against the backing medium `D`.
pub struct JiraDatabase<D: Database> {
    database: D,
}

impl<D: Database> JiraDatabase<D> {
    /// The state a successful read of the backing medium would return.
    pub closed spec fn stored(&self) -> Option<DbView> {
        self.database.stored()
    }

    pub fn new(database: D) -> (r: Self)
        ensures
            r.stored() == database.stored(),
    {
        JiraDatabase { database }
    }

    /// Reads the full aggregate state from the backing medium. On a
    /// dependable medium (one whose `stored` is pinned) this succeeds and
    /// returns exactly the stored state.
    pub fn read(&self) -> (r: Result<DBState, Error>)
        ensures
            (self.stored() matches Some(v) ==> r matches Ok(s) && s@ == v),
            (r matches Err(e) ==> (e == Error::StoreUnavailable || e == Error::CorruptState)),
    {
        self.database.read()
    }

    /// Creates an epic under the next id and returns that id. On a
    /// dependable medium this always succeeds.
    pub fn create_epic(&mut self, epic: Epic) -> (r: Result<u32, Error>)
        requires
            (old(self).stored() matches Some(s) ==> s.last_item_id < u32::MAX),
        ensures
            (old(self).stored() matches Some(pre) ==> {
                &&& r is Ok
                &&& r->Ok_0 == ((pre.last_item_id + 1) as u32)
                &&& final(self).stored() matches Some(post)
                &&& create_epic_step(
                    pre,
                    epic@,
                    final(self).stored()->Some_0,
                    ((pre.last_item_id + 1) as u32),
                )
            }),
            (r matches Err(e) ==> (e == Error::StoreUnavailable || e == Error::CorruptState)),
    {
        let mut state = match self.database.read() {
            Ok(s) => s,
            Err(e) => { return Err(e) },
        };
        if state.last_item_id == u32::MAX {
            // An unpinned medium may hand back a state whose id space is
            // exhausted; no further item fits, so the store is unusable.
            return Err(Error::StoreUnavailable);
        }
        let id = state.create_epic(epic);
        match self.database.write(&state) {
            Ok(u) => Ok(id),
            Err(e) => Err(e),
        }
    }

    /// Creates a story under the next id, appending it to the named epic.
    /// On a dependable medium this succeeds if and only if the epic exists;
    /// otherwise it fails with `EpicNotFound` and the stored state is
    /// unchanged.
    pub fn create_story(&mut self, story: Story, epic_id: u32) -> (r: Result<u32, Error>)
        requires
            (old(self).stored() matches Some(s) ==> s.last_item_id < u32::MAX),
        ensures
            (old(self).stored() matches Some(pre) ==> (if pre.epics.dom().contains(epic_id) {
                &&& r is Ok
                &&& r->Ok_0 == ((pre.last_item_id + 1) as u32)
                &&& final(self).stored() matches Some(post)
                &&& create_story_step(
                    pre,
                    story@,
                    epic_id,
                    final(self).stored()->Some_0,
                    ((pre.last_item_id + 1) as u32),
                )
            } else {
                &&& r == Err::<u32, Error>(Error::EpicNotFound)
                &&& final(self).stored() == old(self).stored()
            })),
            (r matches Err(e) ==> (e == Error::EpicNotFound || e == Error::StoreUnavailable
                || e == Error::CorruptState)),
    {
        let mut state = match self.database.read() {
            Ok(s) => s,
            Err(e) => { return Err(e) },
        };
        if state.last_item_id == u32::MAX {
            // As in `create_epic`: a full id space admits no further item.
            return Err(Error::StoreUnavailable);
        }
        let id = match state.create_story(story, epic_id) {
            Ok(id) => id,
            Err(e) => { return Err(e) },
        };
        match self.database.write(&state) {
            Ok(u) => Ok(id),
            Err(e) => Err(e),
        }
    }

    /// Deletes the named epic and, in the same step, every story its list
    /// names. On a dependable medium this succeeds if and only if the epic
    /// exists; otherwise it fails with `EpicNotFound` and the stored state
    /// is unchanged.
    pub fn delete_epic(&mut self, epic_id: u32) -> (r: Result<(), Error>)
        ensures
            (old(self).stored() matches Some(pre) ==> (if pre.epics.dom().contains(epic_id) {
                &&& r is Ok
                &&& final(self).stored() matches Some(post)
                &&& delete_epic_step(pre, epic_id, final(self).stored()->Some_0)
            } else {
                &&& r == Err::<(), Error>(Error::EpicNotFound)
                &&& final(self).stored() == old(self).stored()
            })),
            (r matches Err(e) ==> (e == Error::EpicNotFound || e == Error::StoreUnavailable
                || e == Error::CorruptState)),
    {
        let mut state = match self.database.read() {
            Ok(s) => s,
            Err(e) => { return Err(e) },
        };
        match state.delete_epic(epic_id) {
            Ok(u) => (),
            Err(e) => { return Err(e) },
        }
        match self.database.write(&state) {
            Ok(u) => Ok(()),
            Err(e) => Err(e),
        }
    }

    /// Overwrites the named epic's status. On a dependable medium this
    /// succeeds if and only if the epic exists; otherwise it fails with
    /// `EpicNotFound` and the stored state is unchanged.
    pub fn update_epic_status(&mut self, epic_id: u32, status: Status) -> (r: Result<(), Error>)
        ensures
            (old(self).stored() matches Some(pre) ==> (if pre.epics.dom().contains(epic_id) {
                &&& r is Ok
                &&& final(self).stored() matches Some(post)
                &&& update_epic_status_step(
                    pre,
                    epic_id,
                    status,
                    final(self).stored()->Some_0,
                )
            } else {
                &&& r == Err::<(), Error>(Error::EpicNotFound)
                &&& final(self).stored() == old(self).stored()
            })),
            (r matches Err(e) ==> (e == Error::EpicNotFound || e == Error::StoreUnavailable
                || e == Error::CorruptState)),
    {
        let mut state = match self.database.read() {
            Ok(s) => s,
            Err(e) => { return Err(e) },
        };
        match state.update_epic_status(epic_id, status) {
            Ok(u) => (),
            Err(e) => { return Err(e) },
        }
        match self.database.write(&state) {
            Ok(u) => Ok(()),
            Err(e) => Err(e),
        }
    }

    /// Overwrites the named story's status. On a dependable medium this
    /// succeeds if and only if the story exists; otherwise it fails with
    /// `StoryNotFound` and the stored state is unchanged.
    pub fn update_story_status(&mut self, story_id: u32, status: Status) -> (r: Result<(), Error>)
        ensures
            (old(self).stored() matches Some(pre) ==> (if pre.stories.dom().contains(story_id) {
                &&& r is Ok
                &&& final(self).stored() matches Some(post)
                &&& update_story_status_step(
                    pre,
                    story_id,
                    status,
                    final(self).stored()->Some_0,
                )
            } else {
                &&& r == Err::<(), Error>(Error::StoryNotFound)
                &&& final(self).stored() == old(self).stored()
            })),
            (r matches Err(e) ==> (e == Error::StoryNotFound || e == Error::StoreUnavailable
                || e == Error::CorruptState)),
    {
        let mut state = match self.database.read() {
            Ok(s) => s,
            Err(e) => { return Err(e) },
        };
        match state.update_story_status(story_id, status) {
            Ok(u) => (),
            Err(e) => { return Err(e) },
        }
        match self.database.write(&state) {
            Ok(u) => Ok(()),
            Err(e) => Err(e),
        }
    }

    /// Removes the story from the story map and its id from the named epic's
    /// list; the story's own absence is tolerated. On a dependable medium
    /// this succeeds if and only if the epic exists; otherwise it fails with
    /// `EpicNotFound` and the stored state is unchanged.
    pub fn delete_story(&mut self, epic_id: u32, story_id: u32) -> (r: Result<(), Error>)
        ensures
            (old(self).stored() matches Some(pre) ==> (if pre.epics.dom().contains(epic_id) {
                &&& r is Ok
                &&& final(self).stored() matches Some(post)
                &&& delete_story_step(pre, epic_id, story_id, final(self).stored()->Some_0)
            } else {
                &&& r == Err::<(), Error>(Error::EpicNotFound)
                &&& final(self).stored() == old(self).stored()
            })),
            (r matches Err(e) ==> (e == Error::EpicNotFound || e == Error::StoreUnavailable
                || e == Error::CorruptState)),
    {
        let mut state = match self.database.read() {
            Ok(s) => s,
            Err(e) => { return Err(e) },
        };
        match state.delete_story(epic_id, story_id) {
            Ok(u) => (),
            Err(e) => { return Err(e) },
        }
        match self.database.write(&state) {
            Ok(u) => Ok(()),
            Err(e) => Err(e),
        }
    }
}

} // verus!
