use vstd::prelude::*;

use crate::db::{
    create_epic_step, create_story_step, delete_epic_step, delete_story_step, empty_db_view,
    update_epic_status_step, update_story_status_step, without_id, DbView,
};
use crate::models::{EpicView, StoryView};

verus! {

pub open spec fn ids_distinct(s: Seq<u32>) -> bool {
    forall|k1: int, k2: int| 0 <= k1 < k2 < s.len() ==> s[k1] != s[k2]
}

/// Well-formedness of the aggregate state, as the store maintains it: the
/// counter bounds every id in use, every story id named by an epic's list
/// resolves in the story map, no story is named by two epics, and no list
/// names a story twice.
pub open spec fn wf(s: DbView) -> bool {
    &&& forall|id: u32| #[trigger] s.epics.dom().contains(id) ==> id <= s.last_item_id
    &&& forall|id: u32| #[trigger] s.stories.dom().contains(id) ==> id <= s.last_item_id
    &&& forall|e: u32, sid: u32|
        s.epics.dom().contains(e) && #[trigger] s.epics[e].stories.contains(sid)
            ==> s.stories.dom().contains(sid)
    &&& forall|e1: u32, e2: u32, sid: u32|
        s.epics.dom().contains(e1) && s.epics.dom().contains(e2) && e1 != e2 && #[trigger] s
            .epics[e1].stories.contains(sid) ==> !(#[trigger] s.epics[e2].stories.contains(
            sid,
        ))
    &&& forall|e: u32| #[trigger] s.epics.dom().contains(e) ==> ids_distinct(
        s.epics[e].stories,
    )
}

/// The state the store starts from is well formed.
pub proof fn lemma_empty_wf()
    ensures
        wf(empty_db_view()),
{
}

proof fn lemma_push_contains(s: Seq<u32>, v: u32, x: u32)
    ensures
        s.push(v).contains(x) <==> (s.contains(x) || x == v),
{
    if s.push(v).contains(x) {
        let k = choose|k: int| 0 <= k < s.push(v).len() && s.push(v)[k] == x;
        if k < s.len() {
            assert(s[k] == x);
        }
    }
    if s.contains(x) {
        let k = choose|k: int| 0 <= k < s.len() && s[k] == x;
        assert(s.push(v)[k] == x);
    }
    if x == v {
        assert(s.push(v)[s.len() as int] == x);
    }
}

proof fn lemma_without_id_membership(list: Seq<u32>, id: u32, x: u32)
    ensures
        without_id(list, id).contains(x) <==> (list.contains(x) && x != id),
    decreases list.len(),
{
    reveal(Seq::filter);
    if list.len() == 0 {
        assert(!without_id(list, id).contains(x));
        assert(!list.contains(x));
    } else {
        lemma_without_id_membership(list.drop_last(), id, x);
        let rest = without_id(list.drop_last(), id);
        if list.last() != id {
            assert(without_id(list, id) == rest.push(list.last()));
            lemma_push_contains(rest, list.last(), x);
        } else {
            assert(without_id(list, id) == rest);
        }
        if list.contains(x) && x != id {
            let k = choose|k: int| 0 <= k < list.len() && list[k] == x;
            if k < list.len() - 1 {
                assert(list.drop_last()[k] == x);
            } else {
                assert(list.last() == x);
            }
        }
        if list.drop_last().contains(x) {
            let k = choose|k: int| 0 <= k < list.drop_last().len() && list.drop_last()[k] == x;
            assert(list[k] == x);
        }
    }
}

proof fn lemma_without_id_distinct(list: Seq<u32>, id: u32)
    requires
        ids_distinct(list),
    ensures
        ids_distinct(without_id(list, id)),
    decreases list.len(),
{
    reveal(Seq::filter);
    if list.len() > 0 {
        assert(ids_distinct(list.drop_last())) by {
            assert(forall|k: int|
                0 <= k < list.drop_last().len() ==> list.drop_last()[k] == list[k]);
        }
        lemma_without_id_distinct(list.drop_last(), id);
        let rest = without_id(list.drop_last(), id);
        if list.last() != id {
            assert(without_id(list, id) == rest.push(list.last()));
            assert(!list.drop_last().contains(list.last())) by {
                if list.drop_last().contains(list.last()) {
                    let k = choose|k: int|
                        0 <= k < list.drop_last().len() && list.drop_last()[k] == list.last();
                    assert(list[k] == list[list.len() - 1]);
                }
            }
            lemma_without_id_membership(list.drop_last(), id, list.last());
            assert(!rest.contains(list.last()));
            assert forall|k1: int, k2: int|
                0 <= k1 < k2 < rest.push(list.last()).len() implies rest.push(
                list.last(),
            )[k1] != rest.push(list.last())[k2] by {
                if k2 < rest.len() {
                } else {
                    assert(rest.push(list.last())[k1] == rest[k1]);
                    if rest[k1] == list.last() {
                        assert(rest.contains(rest[k1]));
                    }
                }
            }
        }
    }
}

/// Creating an epic with an empty story list keeps the state well formed.
pub proof fn lemma_create_epic_preserves_wf(
    pre: DbView,
    epic: EpicView,
    post: DbView,
    id: u32,
)
    requires
        wf(pre),
        create_epic_step(pre, epic, post, id),
        epic.stories.len() == 0,
    ensures
        wf(post),
{
    assert forall|e: u32, sid: u32|
        post.epics.dom().contains(e) && #[trigger] post.epics[e].stories.contains(
            sid,
        ) implies post.stories.dom().contains(sid) by {
        if e == id {
            assert(!epic.stories.contains(sid));
        }
    }
    assert forall|e1: u32, e2: u32, sid: u32|
        post.epics.dom().contains(e1) && post.epics.dom().contains(e2) && e1 != e2
            && #[trigger] post.epics[e1].stories.contains(sid) implies !(
    #[trigger] post.epics[e2].stories.contains(sid)) by {
        if e1 == id || e2 == id {
            assert(!epic.stories.contains(sid));
        }
    }
}

/// Creating a story keeps the state well formed: the fresh id resolves, is
/// appended to exactly one list, and was in no list before.
pub proof fn lemma_create_story_preserves_wf(
    pre: DbView,
    story: StoryView,
    epic_id: u32,
    post: DbView,
    id: u32,
)
    requires
        wf(pre),
        create_story_step(pre, story, epic_id, post, id),
    ensures
        wf(post),
{
    let old_list = pre.epics[epic_id].stories;
    let new_list = old_list.push(id);
    assert forall|sid: u32| pre.epics.dom().contains(epic_id) && old_list.contains(
        sid,
    ) implies sid <= pre.last_item_id by {
        assert(pre.stories.dom().contains(sid));
    }
    assert forall|e: u32, sid: u32|
        post.epics.dom().contains(e) && #[trigger] post.epics[e].stories.contains(
            sid,
        ) implies post.stories.dom().contains(sid) by {
        if e == epic_id {
            lemma_push_contains(old_list, id, sid);
            if sid != id {
                assert(pre.stories.dom().contains(sid));
            }
        } else {
            assert(pre.epics[e].stories.contains(sid));
        }
    }
    assert forall|e1: u32, e2: u32, sid: u32|
        post.epics.dom().contains(e1) && post.epics.dom().contains(e2) && e1 != e2
            && #[trigger] post.epics[e1].stories.contains(sid) implies !(
    #[trigger] post.epics[e2].stories.contains(sid)) by {
        if e1 == epic_id {
            lemma_push_contains(old_list, id, sid);
            if sid == id {
                if post.epics[e2].stories.contains(sid) {
                    assert(pre.epics[e2].stories.contains(sid));
                    assert(pre.stories.dom().contains(sid));
                }
            } else {
                assert(pre.epics[e1].stories.contains(sid));
                if post.epics[e2].stories.contains(sid) {
                    assert(pre.epics[e2].stories.contains(sid));
                }
            }
        } else if e2 == epic_id {
            assert(pre.epics[e1].stories.contains(sid));
            if post.epics[e2].stories.contains(sid) {
                lemma_push_contains(old_list, id, sid);
                if sid == id {
                    assert(pre.stories.dom().contains(sid));
                } else {
                    assert(pre.epics[e2].stories.contains(sid));
                }
            }
        } else {
            assert(pre.epics[e1].stories.contains(sid));
            if post.epics[e2].stories.contains(sid) {
                assert(pre.epics[e2].stories.contains(sid));
            }
        }
    }
    assert forall|e: u32| #[trigger] post.epics.dom().contains(e) implies ids_distinct(
        post.epics[e].stories,
    ) by {
        if e == epic_id {
            assert forall|k1: int, k2: int|
                0 <= k1 < k2 < new_list.len() implies new_list[k1] != new_list[k2] by {
                if k2 == new_list.len() - 1 {
                    assert(new_list[k1] == old_list[k1]);
                    assert(old_list.contains(old_list[k1]));
                    assert(pre.stories.dom().contains(old_list[k1]));
                } else {
                    assert(new_list[k1] == old_list[k1]);
                    assert(new_list[k2] == old_list[k2]);
                }
            }
        }
    }
}

/// Deleting an epic keeps the state well formed: only stories that no other
/// epic could name (the deleted epic's own) leave the story map.
pub proof fn lemma_delete_epic_preserves_wf(pre: DbView, epic_id: u32, post: DbView)
    requires
        wf(pre),
        delete_epic_step(pre, epic_id, post),
    ensures
        wf(post),
{
    let gone = pre.epics[epic_id].stories;
    assert forall|e: u32, sid: u32|
        post.epics.dom().contains(e) && #[trigger] post.epics[e].stories.contains(
            sid,
        ) implies post.stories.dom().contains(sid) by {
        assert(e != epic_id);
        assert(pre.epics[e].stories.contains(sid));
        assert(pre.stories.dom().contains(sid));
        assert(!gone.contains(sid));
        assert(!gone.to_set().contains(sid));
    }
}

/// Overwriting an epic's status keeps the state well formed: no list and no
/// id changes.
pub proof fn lemma_update_epic_status_preserves_wf(
    pre: DbView,
    epic_id: u32,
    status: crate::models::Status,
    post: DbView,
)
    requires
        wf(pre),
        update_epic_status_step(pre, epic_id, status, post),
    ensures
        wf(post),
{
    assert(forall|e: u32|
        post.epics.dom().contains(e) ==> #[trigger] post.epics[e].stories == pre.epics[
            e
        ].stories);
}

/// Overwriting a story's status keeps the state well formed.
pub proof fn lemma_update_story_status_preserves_wf(
    pre: DbView,
    story_id: u32,
    status: crate::models::Status,
    post: DbView,
)
    requires
        wf(pre),
        update_story_status_step(pre, story_id, status, post),
    ensures
        wf(post),
{
    assert(post.stories.dom() =~= pre.stories.dom());
}

/// Deleting a story keeps the state well formed, provided no other epic's
/// list names it -- which well-formedness guarantees whenever the story sits
/// in the named epic's own list.
pub proof fn lemma_delete_story_preserves_wf(
    pre: DbView,
    epic_id: u32,
    story_id: u32,
    post: DbView,
)
    requires
        wf(pre),
        delete_story_step(pre, epic_id, story_id, post),
        forall|e: u32|
            pre.epics.dom().contains(e) && e != epic_id ==> !(#[trigger] pre.epics[
                e
            ].stories.contains(story_id)),
    ensures
        wf(post),
{
    let old_list = pre.epics[epic_id].stories;
    let new_list = without_id(old_list, story_id);
    assert forall|e: u32, sid: u32|
        post.epics.dom().contains(e) && #[trigger] post.epics[e].stories.contains(
            sid,
        ) implies post.stories.dom().contains(sid) by {
        if e == epic_id {
            lemma_without_id_membership(old_list, story_id, sid);
            assert(old_list.contains(sid) && sid != story_id);
            assert(pre.stories.dom().contains(sid));
        } else {
            assert(pre.epics[e].stories.contains(sid));
            assert(sid != story_id);
            assert(pre.stories.dom().contains(sid));
        }
    }
    assert forall|e: u32, sid: u32|
        post.epics.dom().contains(e) && #[trigger] post.epics[e].stories.contains(
            sid,
        ) implies pre.epics[e].stories.contains(sid) by {
        if e == epic_id {
            lemma_without_id_membership(old_list, story_id, sid);
        }
    }
    assert forall|id: u32| #[trigger] post.epics.dom().contains(id) implies id
        <= post.last_item_id by {
        assert(pre.epics.dom().contains(id));
    }
    assert forall|e1: u32, e2: u32, sid: u32|
        post.epics.dom().contains(e1) && post.epics.dom().contains(e2) && e1 != e2
            && #[trigger] post.epics[e1].stories.contains(sid) implies !(
    #[trigger] post.epics[e2].stories.contains(sid)) by {
        if e1 == epic_id {
            lemma_without_id_membership(old_list, story_id, sid);
        }
        assert(pre.epics[e1].stories.contains(sid));
        if post.epics[e2].stories.contains(sid) {
            if e2 == epic_id {
                lemma_without_id_membership(old_list, story_id, sid);
                assert(pre.epics[e2].stories.contains(sid));
            } else {
                assert(pre.epics[e2].stories.contains(sid));
            }
        }
    }
    assert forall|e: u32| #[trigger] post.epics.dom().contains(e) implies ids_distinct(
        post.epics[e].stories,
    ) by {
        if e == epic_id {
            lemma_without_id_distinct(old_list, story_id);
        }
    }
}

/// A create operation seen only through the counter: it returns the id one
/// past the stored counter and leaves the counter at that id.
pub open spec fn returns_fresh_id(pre: DbView, post: DbView, id: u32) -> bool {
    &&& pre.last_item_id < u32::MAX
    &&& id == pre.last_item_id + 1
    &&& post.last_item_id == id
}

/// Creating an epic returns a fresh id in the sense above.
pub proof fn lemma_create_epic_returns_fresh_id(
    pre: DbView,
    epic: EpicView,
    post: DbView,
    id: u32,
)
    requires
        create_epic_step(pre, epic, post, id),
    ensures
        returns_fresh_id(pre, post, id),
{
}

/// Creating a story returns a fresh id in the sense above.
pub proof fn lemma_create_story_returns_fresh_id(
    pre: DbView,
    story: StoryView,
    epic_id: u32,
    post: DbView,
    id: u32,
)
    requires
        create_story_step(pre, story, epic_id, post, id),
    ensures
        returns_fresh_id(pre, post, id),
{
}

proof fn lemma_counter_chain(runs: Seq<(DbView, DbView, u32)>, i: int, j: int)
    requires
        forall|k: int|
            0 <= k < runs.len() ==> returns_fresh_id(
                (#[trigger] runs[k]).0,
                runs[k].1,
                runs[k].2,
            ),
        forall|k: int|
            0 <= k < runs.len() - 1 ==> (#[trigger] runs[k]).1.last_item_id <= runs[k
                + 1].0.last_item_id,
        0 <= i < j < runs.len(),
    ensures
        runs[i].1.last_item_id <= runs[j].0.last_item_id,
    decreases j - i,
{
    if i + 1 < j {
        lemma_counter_chain(runs, i, j - 1);
    }
}

/// Monotonic uniqueness of ids. Take any run of create operations (epics and
/// stories mixed), each seen as a triple of the state read, the state
/// written, and the id returned, such that the stored counter does not
/// decrease between one create and the next -- which holds of every store
/// operation: each step keeps or raises `last_item_id`. Then every returned
/// id is strictly greater than every id returned before it; in particular no
/// id is ever handed out twice.
pub proof fn lemma_created_ids_strictly_increase(runs: Seq<(DbView, DbView, u32)>)
    requires
        forall|k: int|
            0 <= k < runs.len() ==> returns_fresh_id(
                (#[trigger] runs[k]).0,
                runs[k].1,
                runs[k].2,
            ),
        forall|k: int|
            0 <= k < runs.len() - 1 ==> (#[trigger] runs[k]).1.last_item_id <= runs[k
                + 1].0.last_item_id,
    ensures
        forall|i: int, j: int|
            0 <= i < j < runs.len() ==> (#[trigger] runs[i]).2 < (#[trigger] runs[j]).2,
{
    assert forall|i: int, j: int|
        0 <= i < j < runs.len() implies (#[trigger] runs[i]).2 < (#[trigger] runs[j]).2 by {
        lemma_counter_chain(runs, i, j);
    }
}

/// Overwriting an epic's status with the same value twice equals doing it
/// once: the second update hands back the state it was given. No status
/// transition is ever validated, so the second call also succeeds.
pub proof fn lemma_update_epic_status_idempotent(
    pre: DbView,
    epic_id: u32,
    status: crate::models::Status,
    mid: DbView,
    post: DbView,
)
    requires
        update_epic_status_step(pre, epic_id, status, mid),
        update_epic_status_step(mid, epic_id, status, post),
    ensures
        post == mid,
{
    assert((EpicView { status, ..mid.epics[epic_id] }) == mid.epics[epic_id]);
    assert(post.epics =~= mid.epics);
    assert(post =~= mid);
}

/// The same for a story's status.
pub proof fn lemma_update_story_status_idempotent(
    pre: DbView,
    story_id: u32,
    status: crate::models::Status,
    mid: DbView,
    post: DbView,
)
    requires
        update_story_status_step(pre, story_id, status, mid),
        update_story_status_step(mid, story_id, status, post),
    ensures
        post == mid,
{
    assert((StoryView { status, ..mid.stories[story_id] }) == mid.stories[story_id]);
    assert(post.stories =~= mid.stories);
    assert(post =~= mid);
}

/// Deleting an epic cascades: afterwards neither the epic id nor any story
/// id its list named resolves any more. With the epic id gone, a second
/// delete of the same id can only take the `EpicNotFound` branch of
/// `delete_epic`.
pub proof fn lemma_delete_epic_cascades(pre: DbView, epic_id: u32, post: DbView, sid: u32)
    requires
        delete_epic_step(pre, epic_id, post),
        pre.epics[epic_id].stories.contains(sid),
    ensures
        !post.epics.dom().contains(epic_id),
        !post.stories.dom().contains(sid),
{
    assert(pre.epics[epic_id].stories.to_set().contains(sid));
}

} // verus!
