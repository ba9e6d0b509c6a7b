//! Reaction aggregator: folds a page of posts, left-joined to per-symbol
//! tallies, into posts that carry their reactions.
use std::collections::HashMap;
use vstd::prelude::*;

use crate::hierarchy::{note_participant, participants_spec, reversed};

verus! {

/// The viewer id used for anonymous requests; no account has it, so an
/// anonymous viewer never counts as having reacted.
pub const ANONYMOUS_VIEWER: u32 = 0;

/// The id under which a request views reactions.
pub fn viewer_id(user_id: Option<u32>) -> (r: u32)
    ensures
        r == match user_id {
            Some(id) => id,
            None => ANONYMOUS_VIEWER,
        },
{
    match user_id {
        Some(id) => id,
        None => ANONYMOUS_VIEWER,
    }
}

/// Longest reaction symbol accepted, in bytes of UTF-8.
pub const MAX_SYMBOL_BYTES: usize = 16;

/// A reaction symbol that fits: at most `MAX_SYMBOL_BYTES` bytes.
pub fn valid_symbol(symbol: &str) -> (r: bool)
    ensures
        r == (symbol.len() <= MAX_SYMBOL_BYTES),
{
    symbol.len() <= MAX_SYMBOL_BYTES
}

/// How many accounts reacted with one symbol, and whether the viewer did.
#[derive(Debug, PartialEq, Eq, Structural, Clone, Copy)]
pub struct Reaction {
    pub count: u32,
    pub reacted: bool,
}

/// One row of the join: a post, its author, and at most one tally.
pub struct ReactionRow<P, U> {
    pub post_id: u32,
    pub post: P,
    pub author_id: u32,
    pub author: U,
    pub symbol: Option<String>,
    pub count: Option<u32>,
    pub reacted: Option<bool>,
}

/// A post with its reactions: one entry per symbol, in order of the
/// symbol's first row, holding the tally of its last row.
pub struct PostReactions<P> {
    pub post_id: u32,
    pub post: P,
    pub reactions: Vec<(String, Reaction)>,
}

/// A row named a symbol but lacked its tally: the query and the schema
/// disagree.
#[derive(Debug, PartialEq, Eq, Structural, Clone, Copy)]
pub struct MissingTally {
    pub post_id: u32,
}

pub type PostsSpec<P> = Seq<(u32, P, Seq<(String, Reaction)>)>;

/// A row with a symbol carries its count and flag.
pub open spec fn row_complete<P, U>(r: ReactionRow<P, U>) -> bool {
    r.symbol is Some ==> r.count is Some && r.reacted is Some
}

/// No symbol has two entries.
pub open spec fn symbols_unique(es: Seq<(String, Reaction)>) -> bool {
    forall|i: int, j: int|
        0 <= i < es.len() && 0 <= j < es.len() && i != j ==> #[trigger] es[i].0@ != #[trigger] es[j].0@
}

/// The reactions with `s` set to `v`: a symbol already there keeps its
/// place and takes the later tally; a new one goes last.
pub open spec fn put_spec(es: Seq<(String, Reaction)>, s: String, v: Reaction) -> Seq<(String, Reaction)> {
    if exists|i: int| 0 <= i < es.len() && #[trigger] es[i].0@ == s@ {
        es.update(choose|i: int| 0 <= i < es.len() && #[trigger] es[i].0@ == s@, (s, v))
    } else {
        es.push((s, v))
    }
}

/// Sets the tally of one symbol in a post's reactions.
pub fn put_reaction(es: &mut Vec<(String, Reaction)>, s: String, v: Reaction)
    requires
        symbols_unique(old(es)@),
    ensures
        final(es)@ == put_spec(old(es)@, s, v),
        symbols_unique(final(es)@),
{
    let ghost start = es@;
    let ghost entry = (s, v);
    let mut k: usize = 0;
    while k < es.len()
        invariant
            es@ == start,
            old(es)@ == start,
            entry == (s, v),
            symbols_unique(start),
            k <= es@.len(),
            forall|j: int| 0 <= j < k ==> #[trigger] es@[j].0@ != s@,
        decreases es@.len() - k,
    {
        if es[k].0 == s {
            proof {
                assert(start[k as int].0@ == s@);
                let c = choose|i: int| 0 <= i < start.len() && #[trigger] start[i].0@ == s@;
                assert(c == k as int);
            }
            es[k] = (s, v);
            proof {
                assert(es@ =~= start.update(k as int, entry));
                assert(put_spec(start, entry.0, entry.1) == start.update(k as int, entry));
                assert forall|a: int, b: int|
                    0 <= a < es@.len() && 0 <= b < es@.len() && a != b implies #[trigger] es@[a].0@
                    != #[trigger] es@[b].0@ by {
                    assert(start[a].0@ != start[b].0@);
                }
            }
            return;
        }
        k += 1;
    }
    es.push((s, v));
    proof {
        assert forall|a: int, b: int|
            0 <= a < es@.len() && 0 <= b < es@.len() && a != b implies #[trigger] es@[a].0@
            != #[trigger] es@[b].0@ by {
            if a < start.len() && b < start.len() {
                assert(start[a].0@ != start[b].0@);
            }
        }
    }
}

/// The entries that a row adds to its post's reactions.
pub open spec fn with_entry<P, U>(es: Seq<(String, Reaction)>, r: ReactionRow<P, U>) -> Seq<(String, Reaction)> {
    match r.symbol {
        Some(s) => put_spec(es, s, Reaction { count: r.count.unwrap(), reacted: r.reacted.unwrap() }),
        None => es,
    }
}

/// One row folded in: a row of the current post adds its tally; a row of
/// another post opens that post, with its tally if it has one.
pub open spec fn reaction_step<P, U>(ps: PostsSpec<P>, r: ReactionRow<P, U>) -> PostsSpec<P> {
    if ps.len() > 0 && ps.last().0 == r.post_id {
        ps.update(ps.len() - 1, (ps.last().0, ps.last().1, with_entry(ps.last().2, r)))
    } else {
        ps.push((r.post_id, r.post, with_entry(Seq::empty(), r)))
    }
}

pub open spec fn reactions_spec<P, U>(rows: Seq<ReactionRow<P, U>>) -> PostsSpec<P>
    decreases rows.len(),
{
    if rows.len() == 0 {
        Seq::empty()
    } else {
        reaction_step(reactions_spec(rows.drop_last()), rows.last())
    }
}

pub open spec fn posts_match<P>(ps: Seq<PostReactions<P>>, s: PostsSpec<P>) -> bool {
    &&& ps.len() == s.len()
    &&& forall|i: int|
        0 <= i < ps.len() ==> (#[trigger] ps[i]).post_id == s[i].0 && ps[i].post == s[i].1
            && ps[i].reactions@ == s[i].2
}

pub open spec fn reaction_author<P, U>(r: ReactionRow<P, U>) -> (u32, U) {
    (r.author_id, r.author)
}

/// Folds the rows of a page, grouped by post: the first row of a post gives
/// its payload, and a row without a symbol adds no reaction. Each author is
/// resolved once for the page. A row with a symbol but no tally is an
/// error, reported for the first such row.
pub fn fold_reactions<P, U>(rows: Vec<ReactionRow<P, U>>) -> (r: Result<
    (Vec<PostReactions<P>>, HashMap<u32, U>),
    MissingTally,
>)
    ensures
        match r {
            Ok(out) => {
                &&& forall|i: int| 0 <= i < rows@.len() ==> row_complete(#[trigger] rows@[i])
                &&& posts_match(out.0@, reactions_spec(rows@))
                &&& forall|i: int| 0 <= i < out.0@.len() ==> symbols_unique(#[trigger] out.0@[i].reactions@)
                &&& out.1@ == participants_spec(
                    rows@.map_values(|a: ReactionRow<P, U>| reaction_author(a)),
                )
            },
            Err(e) => exists|i: int|
                0 <= i < rows@.len() && !row_complete(#[trigger] rows@[i]) && rows@[i].post_id
                    == e.post_id && forall|j: int| 0 <= j < i ==> row_complete(#[trigger] rows@[j]),
        },
{
    let ghost orig = rows@;
    let ghost people_seq = orig.map_values(|a: ReactionRow<P, U>| reaction_author(a));
    let mut pending = reversed(rows);
    let mut posts: Vec<PostReactions<P>> = Vec::new();
    let mut people: HashMap<u32, U> = HashMap::new();
    while pending.len() > 0
        invariant
            orig == rows@,
            pending@.len() <= orig.len(),
            people_seq == orig.map_values(|a: ReactionRow<P, U>| reaction_author(a)),
            forall|i: int| 0 <= i < pending@.len() ==> #[trigger] pending@[i] == orig[orig.len() - 1 - i],
            forall|i: int| 0 <= i < orig.len() - pending@.len() ==> row_complete(#[trigger] orig[i]),
            posts_match(posts@, reactions_spec(orig.take(orig.len() - pending@.len()))),
            forall|i: int| 0 <= i < posts@.len() ==> symbols_unique(#[trigger] posts@[i].reactions@),
            people@ == participants_spec(people_seq.take(orig.len() - pending@.len())),
        decreases pending@.len(),
    {
        let ghost done = orig.len() - pending@.len();
        let ghost before = posts@;
        let row = pending.pop().unwrap();
        proof {
            assert(row == orig[done]);
            assert(orig.take(done + 1).drop_last() =~= orig.take(done));
            assert(people_seq.take(done + 1).drop_last() =~= people_seq.take(done));
        }
        let ghost r = row;
        if row.symbol.is_some() && (row.count.is_none() || row.reacted.is_none()) {
            assert(!row_complete(orig[done]));
            return Err(MissingTally { post_id: row.post_id });
        }
        let ReactionRow { post_id, post, author_id, author, symbol, count, reacted } = row;
        let entry = match (symbol, count, reacted) {
            (Some(s), Some(c), Some(v)) => Some((s, Reaction { count: c, reacted: v })),
            _ => None,
        };
        let n = posts.len();
        if n > 0 && posts[n - 1].post_id == post_id {
            match entry {
                Some((sym, v)) => put_reaction(&mut posts[n - 1].reactions, sym, v),
                None => {},
            }
            proof {
                let s = reactions_spec(orig.take(done + 1));
                assert forall|i: int| 0 <= i < posts@.len() implies (#[trigger] posts@[i]).post_id == s[i].0
                    && posts@[i].post == s[i].1 && posts@[i].reactions@ == s[i].2 && symbols_unique(
                    posts@[i].reactions@,
                ) by {
                    if i < n - 1 {
                        assert(posts@[i] == before[i]);
                    }
                }
            }
        } else {
            let mut reactions: Vec<(String, Reaction)> = Vec::new();
            match entry {
                Some((sym, v)) => put_reaction(&mut reactions, sym, v),
                None => {},
            }
            posts.push(PostReactions { post_id, post, reactions });
            proof {
                let s = reactions_spec(orig.take(done + 1));
                assert forall|i: int| 0 <= i < posts@.len() implies (#[trigger] posts@[i]).post_id == s[i].0
                    && posts@[i].post == s[i].1 && posts@[i].reactions@ == s[i].2 && symbols_unique(
                    posts@[i].reactions@,
                ) by {
                    if i < n {
                        assert(posts@[i] == before[i]);
                    } else {
                        assert(posts@[i].reactions@ =~= with_entry(Seq::empty(), r));
                    }
                }
            }
        }
        note_participant(&mut people, author_id, author);
    }
    proof {
        assert(orig.take(orig.len() as int) =~= orig);
        assert(people_seq.take(orig.len() as int) =~= people_seq);
    }
    Ok((posts, people))
}

} // verus!
