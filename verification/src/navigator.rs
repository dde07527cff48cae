use vstd::prelude::*;

use crate::db::{
    create_epic_step, create_story_step, delete_epic_step, delete_story_step,
    update_epic_status_step, update_story_status_step, Database, Error, JiraDatabase,
};
use crate::models::{Action, Epic, EpicView, Status, Story, StoryView};
use crate::pages::{AnyPage, EpicDetail, HomePage, StoryDetail};

verus! {

/// The bundle of user-input acquisition results, one value per prompt kind.
/// The driving loop fills the relevant field right before handing the
/// matching action to the navigator; tests script them directly.
pub struct Prompts {
    pub create_epic: Epic,
    pub create_story: Story,
    pub update_status: Option<Status>,
    pub delete_epic: bool,
    pub delete_story: bool,
}

/// The prompt bundle in its initial state: empty entities, no chosen status,
/// both confirmations declined.
pub open spec fn prompts_are_default(p: Prompts) -> bool {
    &&& p.create_epic@ == (EpicView {
        name: Seq::<char>::empty(),
        description: Seq::<char>::empty(),
        status: Status::Open,
        stories: Seq::<u32>::empty(),
    })
    &&& p.create_story@ == (StoryView {
        name: Seq::<char>::empty(),
        description: Seq::<char>::empty(),
        status: Status::Open,
    })
    &&& p.update_status is None
    &&& p.delete_epic == false
    &&& p.delete_story == false
}

impl Prompts {
    pub fn new() -> (r: Prompts)
        ensures
            prompts_are_default(r),
    {
        Prompts {
            create_epic: Epic::new(String::new(), String::new()),
            create_story: Story::new(String::new(), String::new()),
            update_status: None,
            delete_epic: false,
            delete_story: false,
        }
    }
}

/// Owns the screen stack (top = current screen), the prompt bundle and the
/// store, and is the sole component that turns an intent into a store
/// mutation and a stack transition. An empty stack is the terminal state.
pub struct Navigator<D: Database> {
    pub pages: Vec<AnyPage>,
    pub prompts: Prompts,
    pub db: JiraDatabase<D>,
}

impl<D: Database> Navigator<D> {
    /// Starts with exactly one home screen on the stack and default prompts.
    pub fn new(db: JiraDatabase<D>) -> (r: Self)
        ensures
            r.pages@ == seq![AnyPage::Home(HomePage {  })],
            r.db == db,
            prompts_are_default(r.prompts),
    {
        let mut pages: Vec<AnyPage> = Vec::new();
        pages.push(AnyPage::Home(HomePage {  }));
        proof {
            assert(pages@ =~= seq![AnyPage::Home(HomePage {  })]);
        }
        Navigator { pages, prompts: Prompts::new(), db }
    }

    /// The current screen: the top of the stack, if any.
    pub fn get_current_page(&self) -> (r: Option<&AnyPage>)
        ensures
            match r {
                Some(p) => self.pages@.len() > 0 && *p == self.pages@.last(),
                None => self.pages@.len() == 0,
            },
    {
        if self.pages.len() == 0 {
            None
        } else {
            Some(&self.pages[self.pages.len() - 1])
        }
    }

    pub fn get_page_count(&self) -> (r: usize)
        ensures
            r == self.pages@.len(),
    {
        self.pages.len()
    }

    pub fn set_prompts(&mut self, prompts: Prompts)
        ensures
            final(self).prompts == prompts,
            final(self).pages == old(self).pages,
            final(self).db == old(self).db,
    {
        self.prompts = prompts;
    }

    pub fn add_page(&mut self, page: AnyPage)
        ensures
            final(self).pages@ == old(self).pages@.push(page),
            final(self).prompts == old(self).prompts,
            final(self).db == old(self).db,
    {
        self.pages.push(page);
    }

    /// Applies one intent: a stack transition, a store mutation driven by the
    /// matching prompt value, or both. Store failures are propagated
    /// unchanged; the stack is left as it was except that a confirmed,
    /// successful delete pops the now-stale top screen.
    pub fn handle_action(&mut self, action: Action) -> (r: Result<(), Error>)
        requires
            (action == Action::CreateEpic || action matches Action::CreateStory { .. }) ==> (
            old(self).db.stored() matches Some(s) ==> s.last_item_id < u32::MAX),
        ensures
            final(self).prompts == old(self).prompts,
            match action {
                Action::NavigateToEpicDetail { epic_id } => {
                    &&& r is Ok
                    &&& final(self).db == old(self).db
                    &&& final(self).pages@ == old(self).pages@.push(
                        AnyPage::EpicDetail(EpicDetail { epic_id }),
                    )
                },
                Action::NavigateToStoryDetail { epic_id, story_id } => {
                    &&& r is Ok
                    &&& final(self).db == old(self).db
                    &&& final(self).pages@ == old(self).pages@.push(
                        AnyPage::StoryDetail(StoryDetail { epic_id, story_id }),
                    )
                },
                Action::NavigateToPreviousPage => {
                    &&& r is Ok
                    &&& final(self).db == old(self).db
                    &&& final(self).pages@ == (if old(self).pages@.len() > 0 {
                        old(self).pages@.drop_last()
                    } else {
                        old(self).pages@
                    })
                },
                Action::CreateEpic => {
                    &&& final(self).pages@ == old(self).pages@
                    &&& (old(self).db.stored() matches Some(pre) ==> {
                        &&& r is Ok
                        &&& final(self).db.stored() matches Some(post)
                        &&& create_epic_step(
                            pre,
                            old(self).prompts.create_epic@,
                            final(self).db.stored()->Some_0,
                            ((pre.last_item_id + 1) as u32),
                        )
                    })
                    &&& (r matches Err(e) ==> (e == Error::StoreUnavailable || e
                        == Error::CorruptState))
                },
                Action::UpdateEpicStatus { epic_id } => {
                    &&& final(self).pages@ == old(self).pages@
                    &&& match old(self).prompts.update_status {
                        None => r is Ok && final(self).db == old(self).db,
                        Some(st) => {
                            &&& (old(self).db.stored() matches Some(pre) ==> (
                            if pre.epics.dom().contains(epic_id) {
                                &&& r is Ok
                                &&& final(self).db.stored() matches Some(post)
                                &&& update_epic_status_step(
                                    pre,
                                    epic_id,
                                    st,
                                    final(self).db.stored()->Some_0,
                                )
                            } else {
                                &&& r == Err::<(), Error>(Error::EpicNotFound)
                                &&& final(self).db.stored() == old(self).db.stored()
                            }))
                            &&& (r matches Err(e) ==> (e == Error::EpicNotFound || e
                                == Error::StoreUnavailable || e == Error::CorruptState))
                        },
                    }
                },
                Action::DeleteEpic { epic_id } => {
                    if !old(self).prompts.delete_epic {
                        &&& r is Ok
                        &&& final(self).db == old(self).db
                        &&& final(self).pages@ == old(self).pages@
                    } else {
                        &&& (old(self).db.stored() matches Some(pre) ==> (
                        if pre.epics.dom().contains(epic_id) {
                            &&& r is Ok
                            &&& final(self).db.stored() matches Some(post)
                            &&& delete_epic_step(pre, epic_id, final(self).db.stored()->Some_0)
                        } else {
                            &&& r == Err::<(), Error>(Error::EpicNotFound)
                            &&& final(self).db.stored() == old(self).db.stored()
                        }))
                        &&& (r is Ok ==> final(self).pages@ == (if old(self).pages@.len() > 0 {
                            old(self).pages@.drop_last()
                        } else {
                            old(self).pages@
                        }))
                        &&& (r is Err ==> final(self).pages@ == old(self).pages@)
                        &&& (r matches Err(e) ==> (e == Error::EpicNotFound || e
                            == Error::StoreUnavailable || e == Error::CorruptState))
                    }
                },
                Action::CreateStory { epic_id } => {
                    &&& final(self).pages@ == old(self).pages@
                    &&& (old(self).db.stored() matches Some(pre) ==> (
                    if pre.epics.dom().contains(epic_id) {
                        &&& r is Ok
                        &&& final(self).db.stored() matches Some(post)
                        &&& create_story_step(
                            pre,
                            old(self).prompts.create_story@,
                            epic_id,
                            final(self).db.stored()->Some_0,
                            ((pre.last_item_id + 1) as u32),
                        )
                    } else {
                        &&& r == Err::<(), Error>(Error::EpicNotFound)
                        &&& final(self).db.stored() == old(self).db.stored()
                    }))
                    &&& (r matches Err(e) ==> (e == Error::EpicNotFound || e
                        == Error::StoreUnavailable || e == Error::CorruptState))
                },
                Action::UpdateStoryStatus { story_id } => {
                    &&& final(self).pages@ == old(self).pages@
                    &&& match old(self).prompts.update_status {
                        None => r is Ok && final(self).db == old(self).db,
                        Some(st) => {
                            &&& (old(self).db.stored() matches Some(pre) ==> (
                            if pre.stories.dom().contains(story_id) {
                                &&& r is Ok
                                &&& final(self).db.stored() matches Some(post)
                                &&& update_story_status_step(
                                    pre,
                                    story_id,
                                    st,
                                    final(self).db.stored()->Some_0,
                                )
                            } else {
                                &&& r == Err::<(), Error>(Error::StoryNotFound)
                                &&& final(self).db.stored() == old(self).db.stored()
                            }))
                            &&& (r matches Err(e) ==> (e == Error::StoryNotFound || e
                                == Error::StoreUnavailable || e == Error::CorruptState))
                        },
                    }
                },
                Action::DeleteStory { epic_id, story_id } => {
                    if !old(self).prompts.delete_story {
                        &&& r is Ok
                        &&& final(self).db == old(self).db
                        &&& final(self).pages@ == old(self).pages@
                    } else {
                        &&& (old(self).db.stored() matches Some(pre) ==> (
                        if pre.epics.dom().contains(epic_id) {
                            &&& r is Ok
                            &&& final(self).db.stored() matches Some(post)
                            &&& delete_story_step(
                                pre,
                                epic_id,
                                story_id,
                                final(self).db.stored()->Some_0,
                            )
                        } else {
                            &&& r == Err::<(), Error>(Error::EpicNotFound)
                            &&& final(self).db.stored() == old(self).db.stored()
                        }))
                        &&& (r is Ok ==> final(self).pages@ == (if old(self).pages@.len() > 0 {
                            old(self).pages@.drop_last()
                        } else {
                            old(self).pages@
                        }))
                        &&& (r is Err ==> final(self).pages@ == old(self).pages@)
                        &&& (r matches Err(e) ==> (e == Error::EpicNotFound || e
                            == Error::StoreUnavailable || e == Error::CorruptState))
                    }
                },
                Action::Exit => {
                    &&& r is Ok
                    &&& final(self).db == old(self).db
                    &&& final(self).pages@ == Seq::<AnyPage>::empty()
                },
            },
    {
        match action {
            Action::NavigateToEpicDetail { epic_id } => {
                self.pages.push(AnyPage::EpicDetail(EpicDetail { epic_id }));
                Ok(())
            },
            Action::NavigateToStoryDetail { epic_id, story_id } => {
                self.pages.push(AnyPage::StoryDetail(StoryDetail { epic_id, story_id }));
                Ok(())
            },
            Action::NavigateToPreviousPage => {
                if self.pages.len() > 0 {
                    self.pages.pop();
                }
                Ok(())
            },
            Action::CreateEpic => {
                let epic = self.prompts.create_epic.clone();
                match self.db.create_epic(epic) {
                    Ok(id) => Ok(()),
                    Err(e) => Err(e),
                }
            },
            Action::UpdateEpicStatus { epic_id } => {
                match self.prompts.update_status {
                    Some(status) => match self.db.update_epic_status(epic_id, status) {
                        Ok(u) => Ok(()),
                        Err(e) => Err(e),
                    },
                    None => Ok(()),
                }
            },
            Action::DeleteEpic { epic_id } => {
                if self.prompts.delete_epic {
                    match self.db.delete_epic(epic_id) {
                        Ok(u) => {
                            if self.pages.len() > 0 {
                                self.pages.pop();
                            }
                            Ok(())
                        },
                        Err(e) => Err(e),
                    }
                } else {
                    Ok(())
                }
            },
            Action::CreateStory { epic_id } => {
                let story = self.prompts.create_story.clone();
                match self.db.create_story(story, epic_id) {
                    Ok(id) => Ok(()),
                    Err(e) => Err(e),
                }
            },
            Action::UpdateStoryStatus { story_id } => {
                match self.prompts.update_status {
                    Some(status) => match self.db.update_story_status(story_id, status) {
                        Ok(u) => Ok(()),
                        Err(e) => Err(e),
                    },
                    None => Ok(()),
                }
            },
            Action::DeleteStory { epic_id, story_id } => {
                if self.prompts.delete_story {
                    match self.db.delete_story(epic_id, story_id) {
                        Ok(u) => {
                            if self.pages.len() > 0 {
                                self.pages.pop();
                            }
                            Ok(())
                        },
                        Err(e) => Err(e),
                    }
                } else {
                    Ok(())
                }
            },
            Action::Exit => {
                self.pages.clear();
                proof {
                    assert(self.pages@ =~= Seq::<AnyPage>::empty());
                }
                Ok(())
            },
        }
    }
}

} // verus!
