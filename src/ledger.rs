//! Position ledger: the posts of each thread carry the dense positions
//! `1..=last_pos`, kept so by append, delete-with-renumber and cascade delete.
use vstd::prelude::*;

use crate::reactions::{valid_symbol, MAX_SYMBOL_BYTES};
use crate::pagination::{page_of, page_of_spec, page_offset, offset_of_spec, PAGE_SIZE};

verus! {

/// One post of a thread.
pub struct PostEntry {
    pub post_id: u32,
    pub author_id: u32,
    pub content: String,
    pub post_pos: u32,
}

/// One thread with its posts, in position order.
pub struct ThreadEntry {
    pub thread_id: u32,
    pub topic_id: u32,
    pub name: String,
    pub last_pos: u32,
    pub posts: Vec<PostEntry>,
}

/// Why a ledger operation did nothing.
#[derive(Debug, PartialEq, Eq, Structural, Clone, Copy)]
pub enum LedgerError {
    /// The referenced thread or post does not exist.
    NotFound,
    /// The actor may not perform the operation.
    Forbidden,
    /// No identifier or position is left to hand out.
    Exhausted,
    /// A page number below 1, or one whose first position does not fit.
    InvalidPage,
    /// A reaction symbol longer than the reactions table holds.
    InvalidSymbol,
}

/// What an accepted append produced.
#[derive(Debug, PartialEq, Eq, Structural, Clone, Copy)]
pub struct Appended {
    pub post_id: u32,
    pub post_pos: u32,
    pub page_num: u32,
}

/// A moderation record that a deletion asks to be written.
#[derive(Debug, PartialEq, Eq, Structural, Clone, Copy)]
pub enum AuditEntry {
    ThreadDeleted { actor_id: u32, thread_id: u32 },
    PostDeleted { actor_id: u32, post_id: u32, thread_id: u32 },
}

/// What an accepted deletion did.
#[derive(Debug, PartialEq, Eq, Structural, Clone, Copy)]
pub struct Deleted {
    pub thread_id: u32,
    pub thread_removed: bool,
    pub audit: Option<AuditEntry>,
}

/// The decision taken on a deletion request, before any mutation.
#[derive(Debug, PartialEq, Eq, Structural, Clone, Copy)]
pub enum DeletePlan {
    /// Neither the author nor a privileged actor: nothing changes.
    Forbidden,
    /// The originating post: the thread goes with all its posts.
    RemoveThread,
    /// Any later post: it goes, later posts move down by one.
    RemovePost { new_last_pos: u32, audited: bool },
}

/// Positions of `posts` are exactly `1..=last_pos`, in order.
pub open spec fn dense(t: ThreadEntry) -> bool {
    &&& t.posts@.len() == t.last_pos as nat
    &&& forall|i: int| 0 <= i < t.posts@.len() ==> #[trigger] t.posts@[i].post_pos == i + 1
}

pub open spec fn plan_delete_spec(
    actor_id: u32,
    actor_is_privileged: bool,
    author_id: u32,
    post_pos: u32,
    last_pos: u32,
) -> DeletePlan {
    if actor_id != author_id && !actor_is_privileged {
        DeletePlan::Forbidden
    } else if post_pos == 1 {
        DeletePlan::RemoveThread
    } else {
        DeletePlan::RemovePost { new_last_pos: (last_pos - 1) as u32, audited: actor_id != author_id }
    }
}

/// Decides a deletion: allowed to the author or a privileged actor; the
/// first post takes its thread along; a moderator's removal of a later
/// post is audited.
pub fn plan_delete(
    actor_id: u32,
    actor_is_privileged: bool,
    author_id: u32,
    post_pos: u32,
    last_pos: u32,
) -> (r: DeletePlan)
    requires
        1 <= post_pos <= last_pos,
    ensures
        r == plan_delete_spec(actor_id, actor_is_privileged, author_id, post_pos, last_pos),
{
    if actor_id != author_id && !actor_is_privileged {
        DeletePlan::Forbidden
    } else if post_pos == 1 {
        DeletePlan::RemoveThread
    } else {
        DeletePlan::RemovePost { new_last_pos: last_pos - 1, audited: actor_id != author_id }
    }
}

/// `p` with its position lowered by one when it stood after `d`.
pub open spec fn shift_after(p: PostEntry, d: u32) -> PostEntry {
    if p.post_pos > d {
        PostEntry { post_pos: (p.post_pos - 1) as u32, ..p }
    } else {
        p
    }
}

/// The posts left once the one at index `k` (position `k + 1`) is gone.
pub open spec fn remove_and_shift(posts: Seq<PostEntry>, k: int) -> Seq<PostEntry> {
    posts.remove(k).map_values(|p: PostEntry| shift_after(p, (k + 1) as u32))
}

pub open spec fn thread_ids_unique(ts: Seq<ThreadEntry>) -> bool {
    forall|i: int, j: int|
        0 <= i < ts.len() && 0 <= j < ts.len() && i != j ==> #[trigger] ts[i].thread_id
            != #[trigger] ts[j].thread_id
}

pub open spec fn post_ids_unique(ts: Seq<ThreadEntry>) -> bool {
    forall|ti: int, pi: int, tj: int, pj: int|
        0 <= ti < ts.len() && 0 <= pi < ts[ti].posts@.len() && 0 <= tj < ts.len() && 0 <= pj
            < ts[tj].posts@.len() && (ti != tj || pi != pj) ==> #[trigger] ts[ti].posts@[pi].post_id
            != #[trigger] ts[tj].posts@[pj].post_id
}

pub open spec fn ids_below(ts: Seq<ThreadEntry>, next_thread: nat, next_post: nat) -> bool {
    &&& forall|i: int| 0 <= i < ts.len() ==> (#[trigger] ts[i].thread_id as nat) < next_thread
    &&& forall|i: int, j: int|
        0 <= i < ts.len() && 0 <= j < ts[i].posts@.len() ==> (#[trigger] ts[i].posts@[j].post_id
            as nat) < next_post
}

/// Every thread is dense and keeps its originating post; identifiers are
/// unique and below the counters that hand out the next ones.
pub open spec fn threads_wf(ts: Seq<ThreadEntry>, next_thread: nat, next_post: nat) -> bool {
    &&& forall|i: int| 0 <= i < ts.len() ==> dense(#[trigger] ts[i]) && ts[i].last_pos >= 1
    &&& thread_ids_unique(ts)
    &&& post_ids_unique(ts)
    &&& ids_below(ts, next_thread, next_post)
}

pub open spec fn has_thread(ts: Seq<ThreadEntry>, thread_id: u32) -> bool {
    exists|i: int| 0 <= i < ts.len() && #[trigger] ts[i].thread_id == thread_id
}

pub open spec fn has_post(ts: Seq<ThreadEntry>, post_id: u32) -> bool {
    exists|ti: int, pi: int|
        0 <= ti < ts.len() && 0 <= pi < ts[ti].posts@.len() && #[trigger] ts[ti].posts@[pi].post_id
            == post_id
}


/// The ids of the posts at indices `offset .. offset + PAGE_SIZE` (as far as
/// there are posts), that is of positions `offset + 1 ..= offset + PAGE_SIZE`.
pub open spec fn page_of_posts(posts: Seq<PostEntry>, offset: int) -> Seq<u32> {
    let end = if posts.len() <= offset {
        offset
    } else if posts.len() - offset < PAGE_SIZE {
        posts.len() as int
    } else {
        offset + PAGE_SIZE
    };
    Seq::new((end - offset) as nat, |k: int| posts[offset + k].post_id)
}

/// What an accepted append to the thread at index `i` leaves behind.
pub open spec fn appended_at(
    old_ts: Seq<ThreadEntry>,
    new_ts: Seq<ThreadEntry>,
    i: int,
    a: Appended,
    author_id: u32,
    content: String,
) -> bool {
    &&& a.post_pos == old_ts[i].last_pos + 1
    &&& a.page_num as nat == page_of_spec(a.post_pos as nat)
    &&& new_ts.len() == old_ts.len()
    &&& new_ts[i].thread_id == old_ts[i].thread_id
    &&& new_ts[i].topic_id == old_ts[i].topic_id
    &&& new_ts[i].name == old_ts[i].name
    &&& new_ts[i].last_pos == a.post_pos
    &&& new_ts[i].posts@ == old_ts[i].posts@.push(
        PostEntry { post_id: a.post_id, author_id, content, post_pos: a.post_pos },
    )
    &&& forall|j: int| 0 <= j < old_ts.len() && j != i ==> #[trigger] new_ts[j] == old_ts[j]
}

/// What an accepted deletion of the post at `(ti, pi)` leaves behind.
pub open spec fn deleted_at(
    old_ts: Seq<ThreadEntry>,
    new_ts: Seq<ThreadEntry>,
    ti: int,
    pi: int,
    actor_id: u32,
    actor_is_privileged: bool,
    d: Deleted,
) -> bool {
    let t = old_ts[ti];
    let post = t.posts@[pi];
    &&& actor_id == post.author_id || actor_is_privileged
    &&& d.thread_id == t.thread_id
    &&& if post.post_pos == 1 {
        &&& d.thread_removed
        &&& d.audit == Some(AuditEntry::ThreadDeleted { actor_id, thread_id: t.thread_id })
        &&& new_ts == old_ts.remove(ti)
    } else {
        &&& !d.thread_removed
        &&& d.audit == (if actor_id != post.author_id {
            Some(AuditEntry::PostDeleted { actor_id, post_id: post.post_id, thread_id: t.thread_id })
        } else {
            None
        })
        &&& new_ts.len() == old_ts.len()
        &&& forall|j: int| 0 <= j < old_ts.len() && j != ti ==> #[trigger] new_ts[j] == old_ts[j]
        &&& new_ts[ti].thread_id == t.thread_id
        &&& new_ts[ti].topic_id == t.topic_id
        &&& new_ts[ti].name == t.name
        &&& new_ts[ti].last_pos == t.last_pos - 1
        &&& new_ts[ti].posts@ == remove_and_shift(t.posts@, pi)
    }
}

/// Moves every post from index `from` on down by one position.
fn shift_down(posts: &mut Vec<PostEntry>, from: usize)
    requires
        from <= old(posts)@.len(),
        forall|j: int| from <= j < old(posts)@.len() ==> #[trigger] old(posts)@[j].post_pos >= 1,
    ensures
        final(posts)@.len() == old(posts)@.len(),
        forall|j: int| 0 <= j < from ==> #[trigger] final(posts)@[j] == old(posts)@[j],
        forall|j: int|
            from <= j < old(posts)@.len() ==> #[trigger] final(posts)@[j] == (PostEntry {
                post_pos: (old(posts)@[j].post_pos - 1) as u32,
                ..old(posts)@[j]
            }),
{
    let ghost start = posts@;
    let mut j: usize = from;
    while j < posts.len()
        invariant
            from <= j <= posts@.len(),
            posts@.len() == start.len(),
            forall|k: int| (0 <= k < from || j <= k < start.len()) ==> #[trigger] posts@[k] == start[k],
            forall|k: int| from <= k < start.len() ==> #[trigger] start[k].post_pos >= 1,
            forall|k: int|
                from <= k < j ==> #[trigger] posts@[k] == (PostEntry {
                    post_pos: (start[k].post_pos - 1) as u32,
                    ..start[k]
                }),
        decreases posts@.len() - j,
    {
        posts[j].post_pos = posts[j].post_pos - 1;
        j += 1;
    }
}


/// In every well-formed state, the positions of a thread's posts are
/// exactly `1..=last_pos`, each held by one post: no gap, no duplicate.
pub proof fn lemma_positions_dense(ts: Seq<ThreadEntry>, next_thread: nat, next_post: nat, ti: int)
    requires
        threads_wf(ts, next_thread, next_post),
        0 <= ti < ts.len(),
    ensures
        Set::new(|p: int| exists|i: int| 0 <= i < ts[ti].posts@.len() && #[trigger] ts[ti].posts@[i].post_pos == p)
            == Set::new(|p: int| 1 <= p <= ts[ti].last_pos),
        forall|i: int, j: int|
            0 <= i < ts[ti].posts@.len() && 0 <= j < ts[ti].posts@.len() && i != j
                ==> #[trigger] ts[ti].posts@[i].post_pos != #[trigger] ts[ti].posts@[j].post_pos,
{
    let posts = ts[ti].posts@;
    assert(dense(ts[ti]));
    let held = Set::new(|p: int| exists|i: int| 0 <= i < posts.len() && #[trigger] posts[i].post_pos == p);
    let range = Set::new(|p: int| 1 <= p <= ts[ti].last_pos);
    assert forall|p: int| range.contains(p) implies held.contains(p) by {
        assert(posts[p - 1].post_pos == p);
    }
    assert(held =~= range);
}

/// Deleting the originating post removes the thread and every one of its
/// posts: no lookup by the thread's identifier or its posts' finds them.
pub proof fn lemma_cascade_removes_thread(
    old_ts: Seq<ThreadEntry>,
    new_ts: Seq<ThreadEntry>,
    next_thread: nat,
    next_post: nat,
    ti: int,
    pi: int,
    actor_id: u32,
    actor_is_privileged: bool,
    d: Deleted,
)
    requires
        threads_wf(old_ts, next_thread, next_post),
        0 <= ti < old_ts.len(),
        0 <= pi < old_ts[ti].posts@.len(),
        old_ts[ti].posts@[pi].post_pos == 1,
        deleted_at(old_ts, new_ts, ti, pi, actor_id, actor_is_privileged, d),
    ensures
        d.thread_removed,
        !has_thread(new_ts, old_ts[ti].thread_id),
        forall|k: int|
            0 <= k < old_ts[ti].posts@.len() ==> !has_post(new_ts, #[trigger] old_ts[ti].posts@[k].post_id),
{
    assert forall|i: int| 0 <= i < new_ts.len() implies #[trigger] new_ts[i].thread_id
        != old_ts[ti].thread_id by {
        let oi = if i < ti { i } else { i + 1 };
        assert(new_ts[i] == old_ts[oi]);
    }
    assert forall|k: int| 0 <= k < old_ts[ti].posts@.len() implies !has_post(
        new_ts,
        #[trigger] old_ts[ti].posts@[k].post_id,
    ) by {
        assert forall|a: int, b: int|
            0 <= a < new_ts.len() && 0 <= b < new_ts[a].posts@.len() implies #[trigger] new_ts[a].posts@[b].post_id
            != old_ts[ti].posts@[k].post_id by {
            let oa = if a < ti { a } else { a + 1 };
            assert(new_ts[a] == old_ts[oa]);
            assert(old_ts[oa].posts@[b].post_id != old_ts[ti].posts@[k].post_id);
        }
    }
}

/// Deleting a later post of a thread of `n` posts leaves `n - 1` posts:
/// those before it keep their positions, those after it keep their order
/// and move down by exactly one.
pub proof fn lemma_delete_shifts_later_posts(
    old_ts: Seq<ThreadEntry>,
    new_ts: Seq<ThreadEntry>,
    next_thread: nat,
    next_post: nat,
    ti: int,
    pi: int,
    actor_id: u32,
    actor_is_privileged: bool,
    d: Deleted,
)
    requires
        threads_wf(old_ts, next_thread, next_post),
        0 <= ti < old_ts.len(),
        0 <= pi < old_ts[ti].posts@.len(),
        old_ts[ti].posts@[pi].post_pos != 1,
        deleted_at(old_ts, new_ts, ti, pi, actor_id, actor_is_privileged, d),
    ensures
        !d.thread_removed,
        new_ts[ti].last_pos == old_ts[ti].last_pos - 1,
        new_ts[ti].posts@.len() == old_ts[ti].posts@.len() - 1,
        forall|j: int|
            0 <= j < new_ts[ti].posts@.len() && #[trigger] old_ts[ti].posts@[j].post_pos
                < old_ts[ti].posts@[pi].post_pos ==> new_ts[ti].posts@[j] == old_ts[ti].posts@[j],
        forall|j: int|
            0 <= j < new_ts[ti].posts@.len() && old_ts[ti].posts@[j + 1].post_pos
                > old_ts[ti].posts@[pi].post_pos ==> {
                &&& #[trigger] new_ts[ti].posts@[j].post_id == old_ts[ti].posts@[j + 1].post_id
                &&& new_ts[ti].posts@[j].post_pos == old_ts[ti].posts@[j + 1].post_pos - 1
            },
{
    assert(dense(old_ts[ti]));
    let olds = old_ts[ti].posts@;
    assert forall|j: int| 0 <= j < olds.len() - 1 && #[trigger] olds[j].post_pos < olds[pi].post_pos implies new_ts[ti].posts@[j]
        == olds[j] by {
        assert(olds.remove(pi)[j] == olds[j]);
    }
    assert forall|j: int| 0 <= j < olds.len() - 1 && olds[j + 1].post_pos > olds[pi].post_pos implies #[trigger] new_ts[ti].posts@[j].post_id
        == olds[j + 1].post_id && new_ts[ti].posts@[j].post_pos == olds[j + 1].post_pos - 1 by {
        assert(olds.remove(pi)[j] == olds[j + 1]);
    }
}

/// Two appends to one thread, one after the other as their transactions
/// serialize, receive different positions, the later one the next, and
/// neither takes the position of a post that was already there.
pub proof fn lemma_appends_get_distinct_positions(
    ts0: Seq<ThreadEntry>,
    ts1: Seq<ThreadEntry>,
    ts2: Seq<ThreadEntry>,
    i: int,
    a1: Appended,
    a2: Appended,
    author1: u32,
    author2: u32,
    content1: String,
    content2: String,
)
    requires
        0 <= i < ts0.len(),
        dense(ts0[i]),
        appended_at(ts0, ts1, i, a1, author1, content1),
        appended_at(ts1, ts2, i, a2, author2, content2),
    ensures
        a1.post_pos != a2.post_pos,
        a2.post_pos == a1.post_pos + 1,
        forall|j: int|
            0 <= j < ts0[i].posts@.len() ==> #[trigger] ts0[i].posts@[j].post_pos != a1.post_pos
                && ts0[i].posts@[j].post_pos != a2.post_pos,
        ts2[i].posts@.len() == ts0[i].posts@.len() + 2,
        ts2[i].posts@[ts0[i].posts@.len() as int].post_pos == a1.post_pos,
        ts2[i].posts@[ts0[i].posts@.len() as int + 1].post_pos == a2.post_pos,
{
    let n = ts0[i].posts@.len() as int;
    assert(ts2[i].posts@[n] == ts1[i].posts@[n]);
}

/// One reactor's symbol on one post: a row of the reactions table.
pub struct ReactionEntry {
    pub post_id: u32,
    pub reactor_id: u32,
    pub symbol: String,
}

/// Two rows for the same (post, reactor, symbol).
pub open spec fn same_reaction(a: ReactionEntry, b: ReactionEntry) -> bool {
    a.post_id == b.post_id && a.reactor_id == b.reactor_id && a.symbol@ == b.symbol@
}

/// `e` is the row of `reactor_id`'s `symbol` on `post_id`.
pub open spec fn is_reaction(e: ReactionEntry, post_id: u32, reactor_id: u32, symbol: Seq<char>) -> bool {
    e.post_id == post_id && e.reactor_id == reactor_id && e.symbol@ == symbol
}

/// At most one row per (post, reactor, symbol).
pub open spec fn reactions_unique(rs: Seq<ReactionEntry>) -> bool {
    forall|i: int, j: int|
        0 <= i < rs.len() && 0 <= j < rs.len() && i != j ==> !same_reaction(#[trigger] rs[i], #[trigger] rs[j])
}

/// Every reaction is on a post that exists.
pub open spec fn reactions_posted(ts: Seq<ThreadEntry>, rs: Seq<ReactionEntry>) -> bool {
    forall|i: int| 0 <= i < rs.len() ==> has_post(ts, #[trigger] rs[i].post_id)
}

/// The reactions whose post is still in `ts`, in their order.
pub open spec fn retain_posted(rs: Seq<ReactionEntry>, ts: Seq<ThreadEntry>) -> Seq<ReactionEntry>
    decreases rs.len(),
{
    if rs.len() == 0 {
        rs
    } else {
        let kept = retain_posted(rs.drop_last(), ts);
        if has_post(ts, rs.last().post_id) {
            kept.push(rs.last())
        } else {
            kept
        }
    }
}

/// Every post of `old_ts` stands at the same place in `new_ts`.
pub open spec fn posts_kept(old_ts: Seq<ThreadEntry>, new_ts: Seq<ThreadEntry>) -> bool {
    forall|ti: int, pi: int|
        0 <= ti < old_ts.len() && 0 <= pi < old_ts[ti].posts@.len() ==> ti < new_ts.len() && pi
            < new_ts[ti].posts@.len() && #[trigger] new_ts[ti].posts@[pi] == old_ts[ti].posts@[pi]
}

proof fn lemma_posted_kept(old_ts: Seq<ThreadEntry>, new_ts: Seq<ThreadEntry>, rs: Seq<ReactionEntry>)
    requires
        posts_kept(old_ts, new_ts),
        reactions_posted(old_ts, rs),
    ensures
        reactions_posted(new_ts, rs),
{
    assert forall|i: int| 0 <= i < rs.len() implies has_post(new_ts, #[trigger] rs[i].post_id) by {
        let (ti, pi) = choose|ti: int, pi: int|
            0 <= ti < old_ts.len() && 0 <= pi < old_ts[ti].posts@.len() && #[trigger] old_ts[ti].posts@[pi].post_id
                == rs[i].post_id;
        assert(new_ts[ti].posts@[pi] == old_ts[ti].posts@[pi]);
    }
}

/// After a deletion the reactions kept are exactly those of the posts that
/// remain: a reaction goes if and only if its post went.
pub proof fn lemma_retain_posted(rs: Seq<ReactionEntry>, ts: Seq<ThreadEntry>)
    ensures
        forall|x: ReactionEntry| retain_posted(rs, ts).contains(x) <==> rs.contains(x) && has_post(ts, x.post_id),
    decreases rs.len(),
{
    if rs.len() > 0 {
        let prev = rs.drop_last();
        lemma_retain_posted(prev, ts);
        assert forall|x: ReactionEntry| retain_posted(rs, ts).contains(x) <==> rs.contains(x) && has_post(ts, x.post_id) by {
            let kept = retain_posted(prev, ts);
            if kept.contains(x) {
                let j = choose|j: int| 0 <= j < kept.len() && kept[j] == x;
                if has_post(ts, rs.last().post_id) {
                    assert(kept.push(rs.last())[j] == x);
                }
            }
            if rs.contains(x) {
                let j = choose|j: int| 0 <= j < rs.len() && rs[j] == x;
                if j < prev.len() {
                    assert(prev[j] == x);
                    assert(prev.contains(x));
                }
            }
            if prev.contains(x) {
                let j = choose|j: int| 0 <= j < prev.len() && prev[j] == x;
                assert(rs[j] == x);
            }
            if has_post(ts, rs.last().post_id) {
                assert(kept.push(rs.last())[kept.len() as int] == rs.last());
                assert(rs[prev.len() as int] == rs.last());
            }
        }
    }
}

/// Deleting the originating post drops the reactions on the thread's posts
/// and keeps every other reaction.
pub proof fn lemma_cascade_reactions(
    old_ts: Seq<ThreadEntry>,
    new_ts: Seq<ThreadEntry>,
    next_thread: nat,
    next_post: nat,
    ti: int,
    pi: int,
    actor_id: u32,
    actor_is_privileged: bool,
    d: Deleted,
    rs: Seq<ReactionEntry>,
)
    requires
        threads_wf(old_ts, next_thread, next_post),
        reactions_posted(old_ts, rs),
        0 <= ti < old_ts.len(),
        0 <= pi < old_ts[ti].posts@.len(),
        old_ts[ti].posts@[pi].post_pos == 1,
        deleted_at(old_ts, new_ts, ti, pi, actor_id, actor_is_privileged, d),
    ensures
        forall|x: ReactionEntry|
            retain_posted(rs, new_ts).contains(x) <==> rs.contains(x) && forall|k: int|
                0 <= k < old_ts[ti].posts@.len() ==> #[trigger] old_ts[ti].posts@[k].post_id != x.post_id,
{
    lemma_cascade_removes_thread(old_ts, new_ts, next_thread, next_post, ti, pi, actor_id, actor_is_privileged, d);
    lemma_retain_posted(rs, new_ts);
    assert forall|x: ReactionEntry|
        retain_posted(rs, new_ts).contains(x) <==> rs.contains(x) && forall|k: int|
            0 <= k < old_ts[ti].posts@.len() ==> #[trigger] old_ts[ti].posts@[k].post_id != x.post_id by {
        if rs.contains(x) {
            let j = choose|j: int| 0 <= j < rs.len() && rs[j] == x;
            assert(has_post(old_ts, rs[j].post_id));
            let (a, b) = choose|a: int, b: int|
                0 <= a < old_ts.len() && 0 <= b < old_ts[a].posts@.len() && #[trigger] old_ts[a].posts@[b].post_id
                    == x.post_id;
            if a == ti {
                assert(old_ts[ti].posts@[b].post_id == x.post_id);
            } else {
                let na = if a < ti { a } else { a - 1 };
                assert(new_ts[na] == old_ts[a]);
                assert(new_ts[na].posts@[b].post_id == x.post_id);
            }
        }
    }
}

/// Deleting a later post drops the reactions on that post and keeps every
/// other reaction.
pub proof fn lemma_delete_post_reactions(
    old_ts: Seq<ThreadEntry>,
    new_ts: Seq<ThreadEntry>,
    next_thread: nat,
    next_post: nat,
    ti: int,
    pi: int,
    actor_id: u32,
    actor_is_privileged: bool,
    d: Deleted,
    rs: Seq<ReactionEntry>,
)
    requires
        threads_wf(old_ts, next_thread, next_post),
        reactions_posted(old_ts, rs),
        0 <= ti < old_ts.len(),
        0 <= pi < old_ts[ti].posts@.len(),
        old_ts[ti].posts@[pi].post_pos != 1,
        deleted_at(old_ts, new_ts, ti, pi, actor_id, actor_is_privileged, d),
    ensures
        forall|x: ReactionEntry|
            retain_posted(rs, new_ts).contains(x) <==> rs.contains(x) && x.post_id
                != old_ts[ti].posts@[pi].post_id,
{
    lemma_retain_posted(rs, new_ts);
    let gone = old_ts[ti].posts@[pi].post_id;
    let olds = old_ts[ti].posts@;
    assert(new_ts[ti].posts@ == remove_and_shift(olds, pi));
    assert forall|x: ReactionEntry|
        retain_posted(rs, new_ts).contains(x) <==> rs.contains(x) && x.post_id != gone by {
        if x.post_id == gone && has_post(new_ts, x.post_id) {
            let (a, b) = choose|a: int, b: int|
                0 <= a < new_ts.len() && 0 <= b < new_ts[a].posts@.len() && #[trigger] new_ts[a].posts@[b].post_id
                    == x.post_id;
            if a == ti {
                let ob = if b < pi { b } else { b + 1 };
                assert(new_ts[ti].posts@[b].post_id == olds.remove(pi)[b].post_id);
                assert(olds.remove(pi)[b] == olds[ob]);
                assert(olds[ob].post_id != olds[pi].post_id);
            } else {
                assert(new_ts[a] == old_ts[a]);
                assert(old_ts[a].posts@[b].post_id != old_ts[ti].posts@[pi].post_id);
            }
        }
        if rs.contains(x) && x.post_id != gone {
            let j = choose|j: int| 0 <= j < rs.len() && rs[j] == x;
            assert(has_post(old_ts, rs[j].post_id));
            let (a, b) = choose|a: int, b: int|
                0 <= a < old_ts.len() && 0 <= b < old_ts[a].posts@.len() && #[trigger] old_ts[a].posts@[b].post_id
                    == x.post_id;
            if a == ti {
                let nb = if b < pi { b } else { b - 1 };
                assert(b != pi);
                assert(olds.remove(pi)[nb] == olds[b]);
                assert(new_ts[ti].posts@[nb].post_id == olds.remove(pi)[nb].post_id);
                assert(new_ts[ti].posts@[nb].post_id == x.post_id);
            } else {
                assert(new_ts[a] == old_ts[a]);
                assert(new_ts[a].posts@[b].post_id == x.post_id);
            }
        }
    }
}

/// All threads with their posts; stands for the threads and posts tables.
pub struct Ledger {
    threads: Vec<ThreadEntry>,
    reactions: Vec<ReactionEntry>,
    next_thread_id: u32,
    next_post_id: u32,
}

impl View for Ledger {
    type V = Seq<ThreadEntry>;

    closed spec fn view(&self) -> Seq<ThreadEntry> {
        self.threads@
    }
}

impl Ledger {
    /// The identifier that the next thread will get.
    pub closed spec fn next_thread_spec(&self) -> nat {
        self.next_thread_id as nat
    }

    /// The identifier that the next post will get.
    pub closed spec fn next_post_spec(&self) -> nat {
        self.next_post_id as nat
    }

    /// The rows of the reactions table.
    pub closed spec fn reactions_view(&self) -> Seq<ReactionEntry> {
        self.reactions@
    }

    pub open spec fn threads_ok(&self) -> bool {
        threads_wf(self@, self.next_thread_spec(), self.next_post_spec())
    }

    pub open spec fn wf(&self) -> bool {
        &&& self.threads_ok()
        &&& reactions_unique(self.reactions_view())
        &&& reactions_posted(self@, self.reactions_view())
    }

    /// An empty ledger; identifiers start at 1.
    pub fn new() -> (r: Ledger)
        ensures
            r.wf(),
            r@ == Seq::<ThreadEntry>::empty(),
            r.reactions_view() == Seq::<ReactionEntry>::empty(),
            r.next_thread_spec() == 1,
            r.next_post_spec() == 1,
    {
        Ledger { threads: Vec::new(), reactions: Vec::new(), next_thread_id: 1, next_post_id: 1 }
    }

    fn find_thread(&self, thread_id: u32) -> (r: Option<usize>)
        ensures
            match r {
                Some(i) => i < self@.len() && self@[i as int].thread_id == thread_id,
                None => !has_thread(self@, thread_id),
            },
    {
        let mut i: usize = 0;
        while i < self.threads.len()
            invariant
                i <= self@.len(),
                self@ == self.threads@,
                forall|j: int| 0 <= j < i ==> #[trigger] self@[j].thread_id != thread_id,
            decreases self.threads.len() - i,
        {
            if self.threads[i].thread_id == thread_id {
                return Some(i);
            }
            i += 1;
        }
        None
    }

    fn find_post(&self, post_id: u32) -> (r: Option<(usize, usize)>)
        ensures
            match r {
                Some((ti, pi)) => ti < self@.len() && pi < self@[ti as int].posts@.len()
                    && self@[ti as int].posts@[pi as int].post_id == post_id,
                None => !has_post(self@, post_id),
            },
    {
        let mut ti: usize = 0;
        while ti < self.threads.len()
            invariant
                ti <= self@.len(),
                self@ == self.threads@,
                forall|a: int, b: int|
                    0 <= a < ti && 0 <= b < self@[a].posts@.len() ==> #[trigger] self@[a].posts@[b].post_id
                        != post_id,
            decreases self.threads.len() - ti,
        {
            let posts = &self.threads[ti].posts;
            let mut pi: usize = 0;
            while pi < posts.len()
                invariant
                    ti < self@.len(),
                    pi <= posts@.len(),
                    posts@ == self@[ti as int].posts@,
                    forall|b: int| 0 <= b < pi ==> #[trigger] posts@[b].post_id != post_id,
                decreases posts.len() - pi,
            {
                if posts[pi].post_id == post_id {
                    return Some((ti, pi));
                }
                pi += 1;
            }
            ti += 1;
        }
        None
    }

    /// The thread with this identifier, if it exists.
    pub fn thread(&self, thread_id: u32) -> (r: Option<&ThreadEntry>)
        requires
            self.wf(),
        ensures
            r is Some <==> has_thread(self@, thread_id),
            r matches Some(t) ==> t.thread_id == thread_id && exists|i: int|
                0 <= i < self@.len() && self@[i] == *t,
    {
        match self.find_thread(thread_id) {
            Some(i) => Some(&self.threads[i]),
            None => None,
        }
    }

    /// The ids of the posts on a page of a thread, in position order: the
    /// positions after `(page_num - 1) * PAGE_SIZE`, at most `PAGE_SIZE` of
    /// them. A page past the end of an existing thread is empty, not missing.
    pub fn page_post_ids(&self, thread_id: u32, page_num: u32) -> (r: Result<Vec<u32>, LedgerError>)
        requires
            self.wf(),
        ensures
            match r {
                Ok(ids) => {
                    &&& has_thread(self@, thread_id)
                    &&& page_num >= 1 && offset_of_spec(page_num as nat) <= u32::MAX
                    &&& forall|i: int|
                        0 <= i < self@.len() && #[trigger] self@[i].thread_id == thread_id ==> ids@
                            == page_of_posts(self@[i].posts@, offset_of_spec(page_num as nat) as int)
                },
                Err(LedgerError::NotFound) => !has_thread(self@, thread_id),
                Err(LedgerError::InvalidPage) => has_thread(self@, thread_id) && (page_num == 0
                    || offset_of_spec(page_num as nat) > u32::MAX),
                Err(_) => false,
            },
    {
        let ti = match self.find_thread(thread_id) {
            Some(i) => i,
            None => {
                return Err(LedgerError::NotFound);
            },
        };
        let offset = match page_offset(page_num) {
            Some(o) => o,
            None => {
                return Err(LedgerError::InvalidPage);
            },
        };
        let posts = &self.threads[ti].posts;
        let ghost want = page_of_posts(posts@, offset as int);
        let mut ids: Vec<u32> = Vec::new();
        let mut j: usize = offset as usize;
        let len = posts.len();
        let off = offset as usize;
        let end: usize = if len <= off {
            off
        } else if len - off < PAGE_SIZE as usize {
            len
        } else {
            off + PAGE_SIZE as usize
        };
        while j < end
            invariant
                offset <= j <= end,
                end <= posts@.len() || end == offset,
                end == if posts@.len() <= offset { offset as int } else if posts@.len() - offset < PAGE_SIZE {
                    posts@.len() as int
                } else {
                    offset + PAGE_SIZE
                },
                want == page_of_posts(posts@, offset as int),
                ids@.len() == j - offset,
                forall|k: int| 0 <= k < ids@.len() ==> #[trigger] ids@[k] == posts@[offset + k].post_id,
            decreases end - j,
        {
            ids.push(posts[j].post_id);
            j += 1;
        }
        proof {
            assert(ids@ =~= want);
            assert forall|i: int| 0 <= i < self@.len() && #[trigger] self@[i].thread_id == thread_id implies i
                == ti as int by {
                if i != ti as int {
                    assert(self@[i].thread_id != self@[ti as int].thread_id);
                }
            }
        }
        Ok(ids)
    }

    /// Creates a thread together with its originating post at position 1.
    pub fn create_thread(&mut self, topic_id: u32, author_id: u32, name: String, content: String) -> (r:
        Result<(u32, u32), LedgerError>)
        requires
            old(self).wf(),
        ensures
            final(self).wf(),
            final(self).reactions_view() == old(self).reactions_view(),
            match r {
                Ok((thread_id, post_id)) => {
                    &&& old(self).next_thread_spec() < u32::MAX && old(self).next_post_spec() < u32::MAX
                    &&& thread_id == old(self).next_thread_spec()
                    &&& post_id == old(self).next_post_spec()
                    &&& final(self).next_thread_spec() == old(self).next_thread_spec() + 1
                    &&& final(self).next_post_spec() == old(self).next_post_spec() + 1
                    &&& final(self)@.len() == old(self)@.len() + 1
                    &&& final(self)@.drop_last() == old(self)@
                    &&& final(self)@.last().thread_id == thread_id
                    &&& final(self)@.last().topic_id == topic_id
                    &&& final(self)@.last().name == name
                    &&& final(self)@.last().last_pos == 1
                    &&& final(self)@.last().posts@ == seq![
                        PostEntry { post_id, author_id, content, post_pos: 1 },
                    ]
                },
                Err(e) => {
                    &&& e == LedgerError::Exhausted
                    &&& old(self).next_thread_spec() == u32::MAX || old(self).next_post_spec() == u32::MAX
                    &&& *final(self) == *old(self)
                },
            },
    {
        if self.next_thread_id == u32::MAX || self.next_post_id == u32::MAX {
            return Err(LedgerError::Exhausted);
        }
        let thread_id = self.next_thread_id;
        let post_id = self.next_post_id;
        let mut posts = Vec::new();
        posts.push(PostEntry { post_id, author_id, content, post_pos: 1 });
        let entry = ThreadEntry { thread_id, topic_id, name, last_pos: 1, posts };
        let ghost old_ts = self.threads@;
        self.threads.push(entry);
        self.next_thread_id = thread_id + 1;
        self.next_post_id = post_id + 1;
        proof {
            let ts = self.threads@;
            assert(ts.drop_last() =~= old_ts);
            assert forall|i: int| 0 <= i < ts.len() implies dense(#[trigger] ts[i]) && ts[i].last_pos
                >= 1 by {
                if i < old_ts.len() {
                    assert(ts[i] == old_ts[i]);
                }
            }
            assert forall|ti: int, pi: int, tj: int, pj: int|
                0 <= ti < ts.len() && 0 <= pi < ts[ti].posts@.len() && 0 <= tj < ts.len() && 0 <= pj
                    < ts[tj].posts@.len() && (ti != tj || pi != pj) implies #[trigger] ts[ti].posts@[pi].post_id
                != #[trigger] ts[tj].posts@[pj].post_id by {
                if ti < old_ts.len() {
                    assert(ts[ti] == old_ts[ti]);
                }
                if tj < old_ts.len() {
                    assert(ts[tj] == old_ts[tj]);
                }
            }
            assert forall|i: int, j: int|
                0 <= i < ts.len() && 0 <= j < ts[i].posts@.len() implies (
                #[trigger] ts[i].posts@[j].post_id as nat) < self.next_post_id by {
                if i < old_ts.len() {
                    assert(ts[i] == old_ts[i]);
                }
            }
            assert forall|i: int, j: int|
                0 <= i < ts.len() && 0 <= j < ts.len() && i != j implies #[trigger] ts[i].thread_id
                != #[trigger] ts[j].thread_id by {
                if i < old_ts.len() {
                    assert(ts[i] == old_ts[i]);
                }
                if j < old_ts.len() {
                    assert(ts[j] == old_ts[j]);
                }
            }
        }
        proof {
            assert(posts_kept(old_ts, self.threads@)) by {
                assert forall|a: int, b: int| 0 <= a < old_ts.len() && 0 <= b < old_ts[a].posts@.len() implies a
                    < self.threads@.len() && b < self.threads@[a].posts@.len() && #[trigger] self.threads@[a].posts@[b]
                    == old_ts[a].posts@[b] by {
                    assert(self.threads@[a] == old_ts[a]);
                }
            }
            lemma_posted_kept(old_ts, self.threads@, self.reactions@);
        }
        Ok((thread_id, post_id))
    }

    /// Appends a post at position `last_pos + 1` of a thread, as one step.
    pub fn append(&mut self, thread_id: u32, author_id: u32, content: String) -> (r: Result<
        Appended,
        LedgerError,
    >)
        requires
            old(self).wf(),
        ensures
            final(self).wf(),
            final(self).reactions_view() == old(self).reactions_view(),
            match r {
                Ok(a) => {
                    &&& has_thread(old(self)@, thread_id)
                    &&& a.post_id == old(self).next_post_spec()
                    &&& final(self).next_thread_spec() == old(self).next_thread_spec()
                    &&& final(self).next_post_spec() == old(self).next_post_spec() + 1
                    &&& forall|i: int|
                        0 <= i < old(self)@.len() && #[trigger] old(self)@[i].thread_id == thread_id
                            ==> appended_at(old(self)@, final(self)@, i, a, author_id, content)
                },
                Err(LedgerError::NotFound) => !has_thread(old(self)@, thread_id) && *final(self)
                    == *old(self),
                Err(LedgerError::Exhausted) => {
                    &&& has_thread(old(self)@, thread_id)
                    &&& forall|i: int|
                        0 <= i < old(self)@.len() && #[trigger] old(self)@[i].thread_id == thread_id
                            ==> old(self).next_post_spec() == u32::MAX || old(self)@[i].last_pos
                            == u32::MAX
                    &&& *final(self) == *old(self)
                },
                Err(LedgerError::Forbidden) | Err(LedgerError::InvalidPage) | Err(LedgerError::InvalidSymbol) => false,
            },
    {
        let ti = match self.find_thread(thread_id) {
            Some(i) => i,
            None => {
                return Err(LedgerError::NotFound);
            },
        };
        if self.next_post_id == u32::MAX || self.threads[ti].last_pos == u32::MAX {
            return Err(LedgerError::Exhausted);
        }
        let ghost old_ts = self.threads@;
        let post_id = self.next_post_id;
        let pos = self.threads[ti].last_pos + 1;
        self.threads[ti].posts.push(PostEntry { post_id, author_id, content, post_pos: pos });
        self.threads[ti].last_pos = pos;
        self.next_post_id = post_id + 1;
        let page_num = page_of(pos);
        proof {
            let ts = self.threads@;
            let t = ti as int;
            assert forall|i: int| 0 <= i < ts.len() implies dense(#[trigger] ts[i]) && ts[i].last_pos
                >= 1 by {
                if i != t {
                    assert(ts[i] == old_ts[i]);
                } else {
                    assert forall|k: int| 0 <= k < ts[i].posts@.len() implies #[trigger] ts[i].posts@[k].post_pos
                        == k + 1 by {
                        if k < old_ts[i].posts@.len() {
                            assert(ts[i].posts@[k] == old_ts[i].posts@[k]);
                        }
                    }
                }
            }
            assert forall|ti1: int, pi: int, tj: int, pj: int|
                0 <= ti1 < ts.len() && 0 <= pi < ts[ti1].posts@.len() && 0 <= tj < ts.len() && 0 <= pj
                    < ts[tj].posts@.len() && (ti1 != tj || pi != pj) implies #[trigger] ts[ti1].posts@[pi].post_id
                != #[trigger] ts[tj].posts@[pj].post_id by {
                let n = old_ts[t].posts@.len() as int;
                if !(ti1 == t && pi == n) {
                    assert(ts[ti1].posts@[pi] == old_ts[ti1].posts@[pi]);
                }
                if !(tj == t && pj == n) {
                    assert(ts[tj].posts@[pj] == old_ts[tj].posts@[pj]);
                }
            }
            assert forall|i: int, j: int|
                0 <= i < ts.len() && 0 <= j < ts[i].posts@.len() implies (
                #[trigger] ts[i].posts@[j].post_id as nat) < self.next_post_id by {
                if !(i == t && j == old_ts[t].posts@.len()) {
                    assert(ts[i].posts@[j] == old_ts[i].posts@[j]);
                }
            }
            assert forall|i: int, j: int|
                0 <= i < ts.len() && 0 <= j < ts.len() && i != j implies #[trigger] ts[i].thread_id
                != #[trigger] ts[j].thread_id by {
                assert(ts[i].thread_id == old_ts[i].thread_id);
                assert(ts[j].thread_id == old_ts[j].thread_id);
            }
            assert forall|i: int| 0 <= i < ts.len() implies (#[trigger] ts[i].thread_id as nat)
                < self.next_thread_id by {
                assert(ts[i].thread_id == old_ts[i].thread_id);
            }
        }
        proof {
            assert(posts_kept(old_ts, self.threads@)) by {
                assert forall|a: int, b: int| 0 <= a < old_ts.len() && 0 <= b < old_ts[a].posts@.len() implies a
                    < self.threads@.len() && b < self.threads@[a].posts@.len() && #[trigger] self.threads@[a].posts@[b]
                    == old_ts[a].posts@[b] by {
                    if a != ti as int {
                        assert(self.threads@[a] == old_ts[a]);
                    }
                }
            }
            lemma_posted_kept(old_ts, self.threads@, self.reactions@);
        }
        Ok(Appended { post_id, post_pos: pos, page_num })
    }

    fn remove_rows(&mut self, post_id: u32, actor_id: u32, actor_is_privileged: bool) -> (r: Result<
        Deleted,
        LedgerError,
    >)
        requires
            old(self).threads_ok(),
        ensures
            final(self).threads_ok(),
            final(self).reactions_view() == old(self).reactions_view(),
            final(self).next_thread_spec() == old(self).next_thread_spec(),
            final(self).next_post_spec() == old(self).next_post_spec(),
        match r {
                Ok(d) => has_post(old(self)@, post_id) && forall|ti: int, pi: int|
                    0 <= ti < old(self)@.len() && 0 <= pi < old(self)@[ti].posts@.len()
                        && #[trigger] old(self)@[ti].posts@[pi].post_id == post_id ==> deleted_at(
                        old(self)@,
                        final(self)@,
                        ti,
                        pi,
                        actor_id,
                        actor_is_privileged,
                        d,
                    ),
                Err(LedgerError::NotFound) => !has_post(old(self)@, post_id) && *final(self)
                    == *old(self),
                Err(LedgerError::Forbidden) => {
                    &&& has_post(old(self)@, post_id)
                    &&& !actor_is_privileged
                    &&& forall|ti: int, pi: int|
                        0 <= ti < old(self)@.len() && 0 <= pi < old(self)@[ti].posts@.len()
                            && #[trigger] old(self)@[ti].posts@[pi].post_id == post_id
                            ==> old(self)@[ti].posts@[pi].author_id != actor_id
                    &&& *final(self) == *old(self)
                },
                Err(LedgerError::Exhausted) | Err(LedgerError::InvalidPage) | Err(LedgerError::InvalidSymbol) => false,
            },
    {
        let (ti, pi) = match self.find_post(post_id) {
            Some(loc) => loc,
            None => {
                return Err(LedgerError::NotFound);
            },
        };
        let ghost old_ts = self.threads@;
        let ghost t = ti as int;
        let ghost p = pi as int;
        proof {
            assert(dense(old_ts[t]));
            assert(old_ts[t].posts@[p].post_pos == p + 1);
            assert forall|a: int, b: int|
                0 <= a < old_ts.len() && 0 <= b < old_ts[a].posts@.len() && #[trigger] old_ts[a].posts@[b].post_id
                    == post_id implies a == t && b == p by {
                if a != t || b != p {
                    assert(old_ts[a].posts@[b].post_id != old_ts[t].posts@[p].post_id);
                }
            }
        }
        let author_id = self.threads[ti].posts[pi].author_id;
        let post_pos = self.threads[ti].posts[pi].post_pos;
        let last_pos = self.threads[ti].last_pos;
        let thread_id = self.threads[ti].thread_id;
        match plan_delete(actor_id, actor_is_privileged, author_id, post_pos, last_pos) {
            DeletePlan::Forbidden => Err(LedgerError::Forbidden),
            DeletePlan::RemoveThread => {
                let _gone = self.threads.remove(ti);
                proof {
                    let ts = self.threads@;
                    assert(ts =~= old_ts.remove(t));
                    assert forall|i: int| 0 <= i < ts.len() implies dense(#[trigger] ts[i])
                        && ts[i].last_pos >= 1 by {
                        if i < t {
                            assert(ts[i] == old_ts[i]);
                        } else {
                            assert(ts[i] == old_ts[i + 1]);
                        }
                    }
                    assert forall|i: int, j: int|
                        0 <= i < ts.len() && 0 <= j < ts.len() && i != j implies #[trigger] ts[i].thread_id
                        != #[trigger] ts[j].thread_id by {
                        let oi = if i < t { i } else { i + 1 };
                        let oj = if j < t { j } else { j + 1 };
                        assert(ts[i] == old_ts[oi]);
                        assert(ts[j] == old_ts[oj]);
                    }
                    assert forall|ti1: int, pi1: int, tj: int, pj: int|
                        0 <= ti1 < ts.len() && 0 <= pi1 < ts[ti1].posts@.len() && 0 <= tj < ts.len()
                            && 0 <= pj < ts[tj].posts@.len() && (ti1 != tj || pi1 != pj) implies #[trigger] ts[ti1].posts@[pi1].post_id
                        != #[trigger] ts[tj].posts@[pj].post_id by {
                        let oi = if ti1 < t { ti1 } else { ti1 + 1 };
                        let oj = if tj < t { tj } else { tj + 1 };
                        assert(ts[ti1] == old_ts[oi]);
                        assert(ts[tj] == old_ts[oj]);
                        assert(old_ts[oi].posts@[pi1].post_id != old_ts[oj].posts@[pj].post_id);
                    }
                    assert forall|i: int| 0 <= i < ts.len() implies (#[trigger] ts[i].thread_id as nat)
                        < self.next_thread_id by {
                        let oi = if i < t { i } else { i + 1 };
                        assert(ts[i] == old_ts[oi]);
                    }
                    assert forall|i: int, j: int|
                        0 <= i < ts.len() && 0 <= j < ts[i].posts@.len() implies (
                        #[trigger] ts[i].posts@[j].post_id as nat) < self.next_post_id by {
                        let oi = if i < t { i } else { i + 1 };
                        assert(ts[i] == old_ts[oi]);
                    }
                }
                Ok(
                    Deleted {
                        thread_id,
                        thread_removed: true,
                        audit: Some(AuditEntry::ThreadDeleted { actor_id, thread_id }),
                    },
                )
            },
            DeletePlan::RemovePost { new_last_pos, audited } => {
                let _gone = self.threads[ti].posts.remove(pi);
                shift_down(&mut self.threads[ti].posts, pi);
                self.threads[ti].last_pos = new_last_pos;
                proof {
                    let ts = self.threads@;
                    let olds = old_ts[t].posts@;
                    let news = ts[t].posts@;
                    assert(news =~= remove_and_shift(olds, p)) by {
                        assert forall|j: int| 0 <= j < news.len() implies #[trigger] news[j]
                            == remove_and_shift(olds, p)[j] by {
                            if j < p {
                                assert(olds[j].post_pos == j + 1);
                            } else {
                                assert(olds[j + 1].post_pos == j + 2);
                            }
                        }
                    }
                    assert forall|i: int| 0 <= i < ts.len() implies dense(#[trigger] ts[i])
                        && ts[i].last_pos >= 1 by {
                        if i != t {
                            assert(ts[i] == old_ts[i]);
                        } else {
                            assert forall|k: int| 0 <= k < news.len() implies #[trigger] news[k].post_pos
                                == k + 1 by {
                                if k < p {
                                    assert(olds[k].post_pos == k + 1);
                                } else {
                                    assert(olds[k + 1].post_pos == k + 2);
                                }
                            }
                        }
                    }
                    assert forall|i: int, j: int|
                        0 <= i < ts.len() && 0 <= j < ts.len() && i != j implies #[trigger] ts[i].thread_id
                        != #[trigger] ts[j].thread_id by {
                        assert(ts[i].thread_id == old_ts[i].thread_id);
                        assert(ts[j].thread_id == old_ts[j].thread_id);
                    }
                    assert forall|ti1: int, pi1: int, tj: int, pj: int|
                        0 <= ti1 < ts.len() && 0 <= pi1 < ts[ti1].posts@.len() && 0 <= tj < ts.len()
                            && 0 <= pj < ts[tj].posts@.len() && (ti1 != tj || pi1 != pj) implies #[trigger] ts[ti1].posts@[pi1].post_id
                        != #[trigger] ts[tj].posts@[pj].post_id by {
                        let oi = if ti1 == t && pi1 >= p { pi1 + 1 } else { pi1 };
                        let oj = if tj == t && pj >= p { pj + 1 } else { pj };
                        if ti1 != t {
                            assert(ts[ti1] == old_ts[ti1]);
                        }
                        if tj != t {
                            assert(ts[tj] == old_ts[tj]);
                        }
                        assert(ts[ti1].posts@[pi1].post_id == old_ts[ti1].posts@[oi].post_id);
                        assert(ts[tj].posts@[pj].post_id == old_ts[tj].posts@[oj].post_id);
                        assert(old_ts[ti1].posts@[oi].post_id != old_ts[tj].posts@[oj].post_id);
                    }
                    assert forall|i: int| 0 <= i < ts.len() implies (#[trigger] ts[i].thread_id as nat)
                        < self.next_thread_id by {
                        assert(ts[i].thread_id == old_ts[i].thread_id);
                    }
                    assert forall|i: int, j: int|
                        0 <= i < ts.len() && 0 <= j < ts[i].posts@.len() implies (
                        #[trigger] ts[i].posts@[j].post_id as nat) < self.next_post_id by {
                        let oj = if i == t && j >= p { j + 1 } else { j };
                        if i != t {
                            assert(ts[i] == old_ts[i]);
                        }
                        assert(ts[i].posts@[j].post_id == old_ts[i].posts@[oj].post_id);
                    }
                }
                let audit = if audited {
                    Some(AuditEntry::PostDeleted { actor_id, post_id, thread_id })
                } else {
                    None
                };
                Ok(Deleted { thread_id, thread_removed: false, audit })
            },
        }
    }
    /// Deletes a post on behalf of an actor. The originating post takes its
    /// thread along; any later post leaves a gap that later posts close by
    /// moving down one position each. The reactions on every removed post
    /// go with it, and only those.
    pub fn delete(&mut self, post_id: u32, actor_id: u32, actor_is_privileged: bool) -> (r: Result<
        Deleted,
        LedgerError,
    >)
        requires
            old(self).wf(),
        ensures
            final(self).wf(),
            final(self).next_thread_spec() == old(self).next_thread_spec(),
            final(self).next_post_spec() == old(self).next_post_spec(),
            r is Ok ==> final(self).reactions_view() == retain_posted(old(self).reactions_view(), final(self)@),
        match r {
                Ok(d) => has_post(old(self)@, post_id) && forall|ti: int, pi: int|
                    0 <= ti < old(self)@.len() && 0 <= pi < old(self)@[ti].posts@.len()
                        && #[trigger] old(self)@[ti].posts@[pi].post_id == post_id ==> deleted_at(
                        old(self)@,
                        final(self)@,
                        ti,
                        pi,
                        actor_id,
                        actor_is_privileged,
                        d,
                    ),
                Err(LedgerError::NotFound) => !has_post(old(self)@, post_id) && *final(self)
                    == *old(self),
                Err(LedgerError::Forbidden) => {
                    &&& has_post(old(self)@, post_id)
                    &&& !actor_is_privileged
                    &&& forall|ti: int, pi: int|
                        0 <= ti < old(self)@.len() && 0 <= pi < old(self)@[ti].posts@.len()
                            && #[trigger] old(self)@[ti].posts@[pi].post_id == post_id
                            ==> old(self)@[ti].posts@[pi].author_id != actor_id
                    &&& *final(self) == *old(self)
                },
                Err(LedgerError::Exhausted) | Err(LedgerError::InvalidPage) | Err(LedgerError::InvalidSymbol) => false,
            },
    {
        let r = self.remove_rows(post_id, actor_id, actor_is_privileged);
        if r.is_ok() {
            self.prune_reactions();
        }
        r
    }

    fn find_reaction(&self, post_id: u32, reactor_id: u32, symbol: &str) -> (r: Option<usize>)
        ensures
            match r {
                Some(i) => i < self.reactions_view().len() && is_reaction(self.reactions_view()[i as int], post_id, reactor_id, symbol@),
                None => forall|i: int|
                    0 <= i < self.reactions_view().len() ==> !is_reaction(#[trigger] self.reactions_view()[i], post_id, reactor_id, symbol@),
            },
    {
        let sym = symbol.to_owned();
        let mut i: usize = 0;
        while i < self.reactions.len()
            invariant
                sym@ == symbol@,
                i <= self.reactions@.len(),
                forall|j: int|
                    0 <= j < i ==> !is_reaction(#[trigger] self.reactions@[j], post_id, reactor_id, symbol@),
            decreases self.reactions@.len() - i,
        {
            let e = &self.reactions[i];
            if e.post_id == post_id && e.reactor_id == reactor_id && e.symbol == sym {
                return Some(i);
            }
            i += 1;
        }
        None
    }

    /// Records a reactor's symbol on a post. A row already there for the
    /// same post, reactor and symbol is kept as it is (`Ok(false)`).
    pub fn add_reaction(&mut self, post_id: u32, reactor_id: u32, symbol: &str) -> (r: Result<bool, LedgerError>)
        requires
            old(self).wf(),
        ensures
            final(self).wf(),
            final(self)@ == old(self)@,
            final(self).next_thread_spec() == old(self).next_thread_spec(),
            final(self).next_post_spec() == old(self).next_post_spec(),
            match r {
                Ok(true) => final(self).reactions_view().len() == old(self).reactions_view().len() + 1
                    && final(self).reactions_view().drop_last() == old(self).reactions_view()
                    && is_reaction(final(self).reactions_view().last(), post_id, reactor_id, symbol@) && forall|i: int|
                    0 <= i < old(self).reactions_view().len() ==> !is_reaction(#[trigger] old(self).reactions_view()[i], post_id, reactor_id, symbol@),
                Ok(false) => *final(self) == *old(self) && exists|i: int|
                    0 <= i < old(self).reactions_view().len() && is_reaction(#[trigger] old(self).reactions_view()[i], post_id, reactor_id, symbol@),
                Err(LedgerError::InvalidSymbol) => !(symbol.len() <= MAX_SYMBOL_BYTES) && *final(self)
                    == *old(self),
                Err(LedgerError::NotFound) => symbol.len() <= MAX_SYMBOL_BYTES && !has_post(
                    old(self)@,
                    post_id,
                ) && *final(self) == *old(self),
                Err(_) => false,
            },
    {
        if !valid_symbol(symbol) {
            return Err(LedgerError::InvalidSymbol);
        }
        match self.find_post(post_id) {
            Some(_) => {},
            None => {
                return Err(LedgerError::NotFound);
            },
        }
        match self.find_reaction(post_id, reactor_id, &symbol) {
            Some(_) => Ok(false),
            None => {
                let ghost before = self.reactions@;
                let entry = ReactionEntry { post_id, reactor_id, symbol: symbol.to_owned() };
                let ghost e = entry;
                self.reactions.push(entry);
                proof {
                    let rs = self.reactions@;
                    assert(rs == before.push(e));
                    assert forall|a: int, b: int|
                        0 <= a < rs.len() && 0 <= b < rs.len() && a != b implies !same_reaction(
                        #[trigger] rs[a],
                        #[trigger] rs[b],
                    ) by {
                        if a < before.len() && b < before.len() {
                            assert(rs[a] == before[a] && rs[b] == before[b]);
                        } else if a < before.len() {
                            assert(rs[a] == before[a]);
                        } else {
                            assert(rs[b] == before[b]);
                        }
                    }
                    assert forall|a: int| 0 <= a < rs.len() implies has_post(self@, #[trigger] rs[a].post_id) by {
                        if a < before.len() {
                            assert(rs[a] == before[a]);
                        }
                    }
                }
                Ok(true)
            },
        }
    }

    /// Withdraws a reactor's symbol from a post; `false` when there was no
    /// such row.
    pub fn remove_reaction(&mut self, post_id: u32, reactor_id: u32, symbol: &str) -> (r: bool)
        requires
            old(self).wf(),
        ensures
            final(self).wf(),
            final(self)@ == old(self)@,
            final(self).next_thread_spec() == old(self).next_thread_spec(),
            final(self).next_post_spec() == old(self).next_post_spec(),
            r <==> exists|i: int|
                0 <= i < old(self).reactions_view().len() && is_reaction(#[trigger] old(self).reactions_view()[i], post_id, reactor_id, symbol@),
            r ==> exists|i: int|
                0 <= i < old(self).reactions_view().len() && is_reaction(#[trigger] old(self).reactions_view()[i], post_id, reactor_id, symbol@) && final(self).reactions_view() == old(self).reactions_view().remove(i),
            !r ==> *final(self) == *old(self),
    {
        match self.find_reaction(post_id, reactor_id, symbol) {
            Some(i) => {
                let ghost before = self.reactions@;
                self.reactions.remove(i);
                proof {
                    let rs = self.reactions@;
                    assert(rs == before.remove(i as int));
                    assert forall|a: int, b: int|
                        0 <= a < rs.len() && 0 <= b < rs.len() && a != b implies !same_reaction(
                        #[trigger] rs[a],
                        #[trigger] rs[b],
                    ) by {
                        let oa = if a < i { a } else { a + 1 };
                        let ob = if b < i { b } else { b + 1 };
                        assert(rs[a] == before[oa] && rs[b] == before[ob]);
                    }
                    assert forall|a: int| 0 <= a < rs.len() implies has_post(self@, #[trigger] rs[a].post_id) by {
                        let oa = if a < i { a } else { a + 1 };
                        assert(rs[a] == before[oa]);
                    }
                }
                true
            },
            None => false,
        }
    }

    /// Drops the reactions whose post no longer exists.
    fn prune_reactions(&mut self)
        requires
            old(self).threads_ok(),
            reactions_unique(old(self).reactions_view()),
        ensures
            final(self).wf(),
            final(self)@ == old(self)@,
            final(self).next_thread_spec() == old(self).next_thread_spec(),
            final(self).next_post_spec() == old(self).next_post_spec(),
            final(self).reactions_view() == retain_posted(old(self).reactions_view(), old(self)@),
    {
        let mut old_rs: Vec<ReactionEntry> = Vec::new();
        std::mem::swap(&mut old_rs, &mut self.reactions);
        let ghost ts = self.threads@;
        let ghost rs = old_rs@;
        let mut kept: Vec<ReactionEntry> = Vec::new();
        let mut k: usize = 0;
        while k < old_rs.len()
            invariant
                self.threads@ == ts,
                old_rs@ == rs,
                reactions_unique(rs),
                k <= rs.len(),
                kept@ == retain_posted(rs.take(k as int), ts),
                reactions_unique(kept@),
                reactions_posted(ts, kept@),
                forall|a: int| 0 <= a < kept@.len() ==> exists|j: int| 0 <= j < k && #[trigger] kept@[a] == rs[j],
            decreases rs.len() - k,
        {
            let e = &old_rs[k];
            proof {
                assert(rs.take(k + 1).drop_last() =~= rs.take(k as int));
                assert(rs.take(k + 1).last() == rs[k as int]);
            }
            match self.find_post(e.post_id) {
                Some(_) => {
                    let ghost before = kept@;
                    kept.push(ReactionEntry { post_id: e.post_id, reactor_id: e.reactor_id, symbol: e.symbol.clone() });
                    proof {
                        assert(kept@.last() == rs[k as int]);
                        assert forall|a: int, b: int|
                            0 <= a < kept@.len() && 0 <= b < kept@.len() && a != b implies !same_reaction(
                            #[trigger] kept@[a],
                            #[trigger] kept@[b],
                        ) by {
                            if a < before.len() && b < before.len() {
                                assert(kept@[a] == before[a] && kept@[b] == before[b]);
                            } else if a < before.len() {
                                let j = choose|j: int| 0 <= j < k && kept@[a] == rs[j];
                                assert(kept@[a] == before[a]);
                                assert(!same_reaction(rs[j], rs[k as int]));
                            } else {
                                let j = choose|j: int| 0 <= j < k && kept@[b] == rs[j];
                                assert(kept@[b] == before[b]);
                                assert(!same_reaction(rs[j], rs[k as int]));
                            }
                        }
                        assert forall|a: int| 0 <= a < kept@.len() implies has_post(ts, #[trigger] kept@[a].post_id) by {
                            if a < before.len() {
                                assert(kept@[a] == before[a]);
                            }
                        }
                        assert forall|a: int| 0 <= a < kept@.len() implies exists|j: int|
                            0 <= j < k + 1 && #[trigger] kept@[a] == rs[j] by {
                            if a < before.len() {
                                assert(kept@[a] == before[a]);
                                let j = choose|j: int| 0 <= j < k && kept@[a] == rs[j];
                                assert(kept@[a] == rs[j]);
                            } else {
                                assert(kept@[a] == rs[k as int]);
                            }
                        }
                    }
                },
                None => {},
            }
            k += 1;
        }
        proof {
            assert(rs.take(rs.len() as int) =~= rs);
        }
        self.reactions = kept;
    }
}

} // verus!
