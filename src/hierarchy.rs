//! Hierarchy aggregator: folds flat parent/child join rows into parents that
//! hold their children, in one forward pass.
use std::collections::HashMap;
use vstd::prelude::*;
use vstd::std_specs::hash::group_hash_axioms;

verus! {

broadcast use group_hash_axioms;

/// One flat row of a parent/child join.
pub struct Row<P, C> {
    pub key: u32,
    pub parent: P,
    pub child: C,
}

/// A join row whose child has an author to resolve once per result set.
pub struct AuthoredRow<P, C, U> {
    pub key: u32,
    pub parent: P,
    pub child: C,
    pub author_id: u32,
    pub author: U,
}

/// A parent with its children in arrival order.
pub struct Group<P, C> {
    pub key: u32,
    pub parent: P,
    pub children: Vec<C>,
}

/// The keys in order of first arrival, and for each key its payload and
/// children.
pub type Folded<P, C> = (Seq<u32>, Map<u32, (P, Seq<C>)>);

/// One row folded in: a known key gains a child; a new key gets the row's
/// payload and a first child, and goes last in the order.
pub open spec fn fold_step<P, C>(f: Folded<P, C>, r: Row<P, C>) -> Folded<P, C> {
    if f.1.contains_key(r.key) {
        (f.0, f.1.insert(r.key, (f.1[r.key].0, f.1[r.key].1.push(r.child))))
    } else {
        (f.0.push(r.key), f.1.insert(r.key, (r.parent, seq![r.child])))
    }
}

pub open spec fn fold_spec<P, C>(rows: Seq<Row<P, C>>) -> Folded<P, C>
    decreases rows.len(),
{
    if rows.len() == 0 {
        (Seq::empty(), Map::empty())
    } else {
        fold_step(fold_spec(rows.drop_last()), rows.last())
    }
}

/// `gs` lists the parents of `f` in its order, each with its payload and
/// children.
pub open spec fn groups_match<P, C>(gs: Seq<Group<P, C>>, f: Folded<P, C>) -> bool {
    &&& gs.len() == f.0.len()
    &&& forall|i: int|
        0 <= i < gs.len() ==> #[trigger] gs[i].key == f.0[i] && f.1.contains_key(gs[i].key) && f.1[gs[i].key] == (
            gs[i].parent,
            gs[i].children@,
        )
}

/// Each participant once, with what its first row said of it.
pub open spec fn participants_spec<U>(people: Seq<(u32, U)>) -> Map<u32, U>
    decreases people.len(),
{
    if people.len() == 0 {
        Map::empty()
    } else {
        let m = participants_spec(people.drop_last());
        if m.contains_key(people.last().0) {
            m
        } else {
            m.insert(people.last().0, people.last().1)
        }
    }
}

pub open spec fn row_of<P, C, U>(a: AuthoredRow<P, C, U>) -> Row<P, C> {
    Row { key: a.key, parent: a.parent, child: a.child }
}

pub open spec fn author_of<P, C, U>(a: AuthoredRow<P, C, U>) -> (u32, U) {
    (a.author_id, a.author)
}

/// The order of keys holds no key twice, and holds exactly the keys of the
/// map.
pub open spec fn folded_wf<P, C>(f: Folded<P, C>) -> bool {
    &&& forall|i: int, j: int|
        0 <= i < f.0.len() && 0 <= j < f.0.len() && i != j ==> #[trigger] f.0[i] != #[trigger] f.0[j]
    &&& forall|k: u32| f.1.contains_key(k) <==> f.0.contains(k)
}

/// The children of key `k`, in the order of their rows.
pub open spec fn children_of<P, C>(rows: Seq<Row<P, C>>, k: u32) -> Seq<C> {
    rows.filter(|r: Row<P, C>| r.key == k).map_values(|r: Row<P, C>| r.child)
}

proof fn lemma_children_push<P, C>(prev: Seq<Row<P, C>>, last: Row<P, C>, k: u32)
    ensures
        children_of(prev.push(last), k) == if last.key == k {
            children_of(prev, k).push(last.child)
        } else {
            children_of(prev, k)
        },
{
    let rows = prev.push(last);
    let pred = |r: Row<P, C>| r.key == k;
    reveal(Seq::filter);
    assert(rows.drop_last() =~= prev);
    assert(rows.last() == last);
    assert(rows.filter(pred) == if pred(last) {
        prev.filter(pred).push(last)
    } else {
        prev.filter(pred)
    });
    assert(prev.filter(pred).push(last).map_values(|r: Row<P, C>| r.child) =~= prev.filter(pred).map_values(
        |r: Row<P, C>| r.child,
    ).push(last.child));
}

proof fn lemma_fold_keys<P, C>(rows: Seq<Row<P, C>>)
    ensures
        folded_wf(fold_spec(rows)),
        forall|k: u32|
            fold_spec(rows).1.contains_key(k) <==> exists|i: int| 0 <= i < rows.len() && #[trigger] rows[i].key == k,
    decreases rows.len(),
{
    if rows.len() > 0 {
        let prev = rows.drop_last();
        let last = rows.last();
        let n = prev.len() as int;
        lemma_fold_keys(prev);
        let f = fold_spec(prev);
        let g = fold_spec(rows);
        assert forall|k: u32| g.1.contains_key(k) <==> exists|i: int| 0 <= i < rows.len() && #[trigger] rows[i].key == k by {
            if k == last.key {
                assert(rows[n] == last);
            } else {
                if exists|i: int| 0 <= i < rows.len() && #[trigger] rows[i].key == k {
                    let i = choose|i: int| 0 <= i < rows.len() && #[trigger] rows[i].key == k;
                    assert(prev[i] == rows[i]);
                }
                if exists|i: int| 0 <= i < prev.len() && #[trigger] prev[i].key == k {
                    let i = choose|i: int| 0 <= i < prev.len() && #[trigger] prev[i].key == k;
                    assert(rows[i] == prev[i]);
                }
            }
        }
        if !f.1.contains_key(last.key) {
            assert(!f.0.contains(last.key));
            assert forall|k: u32| g.1.contains_key(k) <==> g.0.contains(k) by {
                assert(g.0[f.0.len() as int] == last.key);
                if g.0.contains(k) && k != last.key {
                    let j = choose|j: int| 0 <= j < g.0.len() && g.0[j] == k;
                    assert(f.0[j] == k);
                }
                if f.0.contains(k) {
                    let j = choose|j: int| 0 <= j < f.0.len() && f.0[j] == k;
                    assert(g.0[j] == k);
                }
            }
            assert forall|a: int, b: int|
                0 <= a < g.0.len() && 0 <= b < g.0.len() && a != b implies #[trigger] g.0[a]
                != #[trigger] g.0[b] by {
                if a < f.0.len() && b < f.0.len() {
                } else if a < f.0.len() {
                    assert(f.0.contains(f.0[a]));
                } else {
                    assert(f.0.contains(f.0[b]));
                }
            }
        }
    }
}

proof fn lemma_fold_children<P, C>(rows: Seq<Row<P, C>>)
    ensures
        forall|k: u32| #[trigger]
            fold_spec(rows).1.contains_key(k) ==> fold_spec(rows).1[k].1 == children_of(rows, k),
    decreases rows.len(),
{
    if rows.len() > 0 {
        let prev = rows.drop_last();
        let last = rows.last();
        assert(rows == prev.push(last));
        lemma_fold_children(prev);
        lemma_fold_keys(prev);
        let f = fold_spec(prev);
        let g = fold_spec(rows);
        assert forall|k: u32| #[trigger] g.1.contains_key(k) implies g.1[k].1 == children_of(rows, k) by {
            lemma_children_push(prev, last, k);
            if k == last.key && !f.1.contains_key(k) {
                let pred = |r: Row<P, C>| r.key == k;
                assert forall|i: int| 0 <= i < prev.len() implies !pred(#[trigger] prev[i]) by {
                    if prev[i].key == k {
                        assert(f.1.contains_key(k));
                    }
                }
                prev.lemma_all_neg_filter_empty(pred);
                assert(children_of(prev, k) =~= Seq::<C>::empty());
                assert(children_of(rows, k) =~= seq![last.child]);
            }
        }
    }
}

#[verifier::rlimit(40)]
proof fn lemma_fold_payload<P, C>(rows: Seq<Row<P, C>>)
    ensures
        forall|i: int|
            0 <= i < rows.len() && (forall|j: int| 0 <= j < i ==> rows[j].key != rows[i].key)
                ==> fold_spec(rows).1[#[trigger] rows[i].key].0 == rows[i].parent,
    decreases rows.len(),
{
    if rows.len() > 0 {
        let prev = rows.drop_last();
        let last = rows.last();
        let n = prev.len() as int;
        lemma_fold_payload(prev);
        lemma_fold_keys(prev);
        let f = fold_spec(prev);
        let g = fold_spec(rows);
        assert forall|i: int|
            0 <= i < rows.len() && (forall|j: int| 0 <= j < i ==> rows[j].key != rows[i].key) implies g.1[#[trigger] rows[i].key].0
            == rows[i].parent by {
            if i < n {
                assert(rows[i] == prev[i]);
                assert forall|j: int| 0 <= j < i implies prev[j].key != prev[i].key by {
                    assert(rows[j] == prev[j]);
                }
                assert(f.1.contains_key(prev[i].key));
            } else {
                assert(!f.1.contains_key(last.key)) by {
                    if f.1.contains_key(last.key) {
                        let j = choose|j: int| 0 <= j < prev.len() && #[trigger] prev[j].key == last.key;
                        assert(rows[j] == prev[j]);
                    }
                }
            }
        }
    }
}

/// Folding rows gives each key that occurs in them once, in order of first
/// arrival; its payload is the one of its first row (later rows are not
/// read for it), and its children are the children of its rows, in order.
pub proof fn lemma_fold_groups_rows<P, C>(rows: Seq<Row<P, C>>)
    ensures
        folded_wf(fold_spec(rows)),
        forall|k: u32|
            fold_spec(rows).1.contains_key(k) <==> exists|i: int| 0 <= i < rows.len() && #[trigger] rows[i].key == k,
        forall|k: u32| #[trigger]
            fold_spec(rows).1.contains_key(k) ==> fold_spec(rows).1[k].1 == children_of(rows, k),
        forall|i: int|
            0 <= i < rows.len() && (forall|j: int| 0 <= j < i ==> rows[j].key != rows[i].key)
                ==> fold_spec(rows).1[#[trigger] rows[i].key].0 == rows[i].parent,
{
    lemma_fold_keys(rows);
    lemma_fold_children(rows);
    lemma_fold_payload(rows);
}

/// A key that the fold lists before another occurs in a row before any
/// row of the other: keys come in the order of their first row.
pub proof fn lemma_fold_key_order<P, C>(rows: Seq<Row<P, C>>, a: int, b: int)
    requires
        0 <= a < b < fold_spec(rows).0.len(),
    ensures
        exists|i: int|
            0 <= i < rows.len() && #[trigger] rows[i].key == fold_spec(rows).0[a] && forall|j: int|
                0 <= j <= i ==> #[trigger] rows[j].key != fold_spec(rows).0[b],
    decreases rows.len(),
{
    let prev = rows.drop_last();
    let last = rows.last();
    lemma_fold_keys(prev);
    let f = fold_spec(prev);
    let g = fold_spec(rows);
    if b < f.0.len() {
        lemma_fold_key_order(prev, a, b);
        assert(g.0[a] == f.0[a] && g.0[b] == f.0[b]);
        let i = choose|i: int|
            0 <= i < prev.len() && #[trigger] prev[i].key == f.0[a] && forall|j: int|
                0 <= j <= i ==> #[trigger] prev[j].key != f.0[b];
        assert(rows[i] == prev[i]);
        assert forall|j: int| 0 <= j <= i implies #[trigger] rows[j].key != g.0[b] by {
            assert(rows[j] == prev[j]);
            assert(prev[j].key != f.0[b]);
        }
    } else {
        assert(!f.1.contains_key(last.key));
        assert(g.0[b] == last.key);
        assert(g.0[a] == f.0[a]);
        assert(f.0.contains(f.0[a]));
        assert(f.1.contains_key(f.0[a]));
        let i = choose|i: int| 0 <= i < prev.len() && #[trigger] prev[i].key == f.0[a];
        assert(rows[i] == prev[i]);
        assert forall|j: int| 0 <= j <= i implies #[trigger] rows[j].key != g.0[b] by {
            assert(rows[j] == prev[j]);
            if prev[j].key == last.key {
                assert(f.1.contains_key(last.key));
            }
        }
    }
}

/// Parents folded so far, with an index from key to place.
pub struct Folder<P, C> {
    groups: Vec<Group<P, C>>,
    index: HashMap<u32, usize>,
    model: Ghost<Folded<P, C>>,
}

impl<P, C> Folder<P, C> {
    pub closed spec fn folded(&self) -> Folded<P, C> {
        self.model@
    }

    pub closed spec fn inv(&self) -> bool {
        &&& groups_match(self.groups@, self.model@)
        &&& folded_wf(self.model@)
        &&& forall|k: u32| #[trigger] self.index@.contains_key(k) <==> self.model@.1.contains_key(k)
        &&& forall|k: u32|
            #[trigger] self.index@.contains_key(k) ==> self.index@[k] < self.groups@.len()
                && self.groups@[self.index@[k] as int].key == k
    }

    /// A folder that has seen no row.
    pub fn new() -> (r: Folder<P, C>)
        ensures
            r.inv(),
            r.folded() == fold_spec(Seq::<Row<P, C>>::empty()),
    {
        let r = Folder { groups: Vec::new(), index: HashMap::new(), model: Ghost((Seq::empty(), Map::empty())) };
        assert(r.model@.0 =~= Seq::<u32>::empty());
        r
    }

    /// Folds in one row.
    pub fn push_row(&mut self, row: Row<P, C>)
        requires
            old(self).inv(),
        ensures
            final(self).inv(),
            final(self).folded() == fold_step(old(self).folded(), row),
    {
        let ghost f = self.model@;
        let ghost old_groups = self.groups@;
        let Row { key, parent, child } = row;
        let ghost r = Row { key, parent, child };
        assert(r == row);
        match self.index.get(&key) {
            Some(at) => {
                let i = *at;
                proof {
                    assert(f.1.contains_key(key));
                    assert(f.0[i as int] == key);
                }
                self.groups[i].children.push(child);
                self.model = Ghost(fold_step(f, r));
                proof {
                    let gs = self.groups@;
                    assert forall|j: int| 0 <= j < gs.len() implies #[trigger] gs[j].key == self.model@.0[j]
                        && self.model@.1[gs[j].key] == (gs[j].parent, gs[j].children@) by {
                        if j != i {
                            assert(gs[j] == old_groups[j]);
                            assert(f.0[j] != f.0[i as int]);
                        }
                    }
                }
            },
            None => {
                proof {
                    assert(!f.1.contains_key(key));
                    assert(!f.0.contains(key));
                }
                let n = self.groups.len();
                self.index.insert(key, n);
                let mut children = Vec::new();
                children.push(child);
                self.groups.push(Group { key, parent, children });
                self.model = Ghost(fold_step(f, r));
                proof {
                    let gs = self.groups@;
                    let m = self.model@;
                    assert(m.0 == f.0.push(key));
                    assert forall|j: int| 0 <= j < gs.len() implies #[trigger] gs[j].key == m.0[j]
                        && m.1[gs[j].key] == (gs[j].parent, gs[j].children@) by {
                        if j < n {
                            assert(gs[j] == old_groups[j]);
                            assert(f.0.contains(f.0[j]));
                        } else {
                            assert(gs[j].children@ =~= seq![child]);
                        }
                    }
                    assert forall|a: int, b: int|
                        0 <= a < m.0.len() && 0 <= b < m.0.len() && a != b implies #[trigger] m.0[a]
                        != #[trigger] m.0[b] by {
                        if a < n && b < n {
                        } else if a < n {
                            assert(f.0.contains(f.0[a]));
                        } else {
                            assert(f.0.contains(f.0[b]));
                        }
                    }
                    assert forall|k: u32| m.1.contains_key(k) <==> m.0.contains(k) by {
                        assert(m.0[n as int] == key);
                        if k != key {
                            if m.0.contains(k) {
                                let j = choose|j: int| 0 <= j < m.0.len() && m.0[j] == k;
                                assert(j < n);
                                assert(f.0[j] == k);
                                assert(f.0.contains(k));
                            }
                            if f.0.contains(k) {
                                let j = choose|j: int| 0 <= j < f.0.len() && f.0[j] == k;
                                assert(m.0[j] == k);
                            }
                        }
                    }
                    assert forall|k: u32| #[trigger] self.index@.contains_key(k) implies self.index@[k]
                        < gs.len() && gs[self.index@[k] as int].key == k by {
                        if k != key {
                            assert(gs[self.index@[k] as int] == old_groups[self.index@[k] as int]);
                        }
                    }
                }
            },
        }
    }

    /// The parents folded so far.
    pub fn into_groups(self) -> (r: Vec<Group<P, C>>)
        requires
            self.inv(),
        ensures
            groups_match(r@, self.folded()),
    {
        self.groups
    }
}

/// Records a participant unless an earlier row already did.
pub fn note_participant<U>(people: &mut HashMap<u32, U>, id: u32, who: U)
    ensures
        final(people)@ == if old(people)@.contains_key(id) {
            old(people)@
        } else {
            old(people)@.insert(id, who)
        },
{
    if !people.contains_key(&id) {
        people.insert(id, who);
    }
}

/// `v` in reverse order.
pub fn reversed<T>(v: Vec<T>) -> (r: Vec<T>)
    ensures
        r@.len() == v@.len(),
        forall|i: int| 0 <= i < v@.len() ==> #[trigger] r@[i] == v@[v@.len() - 1 - i],
{
    let ghost orig = v@;
    let mut v = v;
    let mut r: Vec<T> = Vec::new();
    while v.len() > 0
        invariant
            r@.len() + v@.len() == orig.len(),
            forall|i: int| 0 <= i < v@.len() ==> #[trigger] v@[i] == orig[i],
            forall|i: int| 0 <= i < r@.len() ==> #[trigger] r@[i] == orig[orig.len() - 1 - i],
        decreases v@.len(),
    {
        let x = v.pop().unwrap();
        r.push(x);
    }
    r
}

/// Folds rows whose rows for one key arrive together (or not): the first
/// row of a key gives its payload, every row adds one child, parents keep
/// the order in which their keys first arrived. No row, no parent.
pub fn fold_rows<P, C>(rows: Vec<Row<P, C>>) -> (r: Vec<Group<P, C>>)
    ensures
        groups_match(r@, fold_spec(rows@)),
{
    let ghost orig = rows@;
    let mut pending = reversed(rows);
    let mut folder = Folder::new();
    while pending.len() > 0
        invariant
            folder.inv(),
            pending@.len() <= orig.len(),
            forall|i: int| 0 <= i < pending@.len() ==> #[trigger] pending@[i] == orig[orig.len() - 1 - i],
            folder.folded() == fold_spec(orig.take(orig.len() - pending@.len())),
        decreases pending@.len(),
    {
        let ghost done = orig.len() - pending@.len();
        let row = pending.pop().unwrap();
        proof {
            assert(row == orig[done]);
            assert(orig.take(done + 1).drop_last() =~= orig.take(done));
        }
        folder.push_row(row);
    }
    proof {
        assert(orig.take(orig.len() as int) =~= orig);
    }
    folder.into_groups()
}

/// Folds rows as `fold_rows` does and resolves each row's author once for
/// the whole result set, first row first.
pub fn fold_rows_with_participants<P, C, U>(rows: Vec<AuthoredRow<P, C, U>>) -> (r: (
    Vec<Group<P, C>>,
    HashMap<u32, U>,
))
    ensures
        groups_match(r.0@, fold_spec(rows@.map_values(|a: AuthoredRow<P, C, U>| row_of(a)))),
        r.1@ == participants_spec(rows@.map_values(|a: AuthoredRow<P, C, U>| author_of(a))),
{
    let ghost orig = rows@;
    let ghost orig_rows = orig.map_values(|a: AuthoredRow<P, C, U>| row_of(a));
    let ghost orig_people = orig.map_values(|a: AuthoredRow<P, C, U>| author_of(a));
    let mut pending = reversed(rows);
    let mut folder = Folder::new();
    let mut people: HashMap<u32, U> = HashMap::new();
    while pending.len() > 0
        invariant
            folder.inv(),
            pending@.len() <= orig.len(),
            orig_rows == orig.map_values(|a: AuthoredRow<P, C, U>| row_of(a)),
            orig_people == orig.map_values(|a: AuthoredRow<P, C, U>| author_of(a)),
            forall|i: int| 0 <= i < pending@.len() ==> #[trigger] pending@[i] == orig[orig.len() - 1 - i],
            folder.folded() == fold_spec(orig_rows.take(orig.len() - pending@.len())),
            people@ == participants_spec(orig_people.take(orig.len() - pending@.len())),
        decreases pending@.len(),
    {
        let ghost done = orig.len() - pending@.len();
        let a = pending.pop().unwrap();
        proof {
            assert(a == orig[done]);
            assert(orig_rows.take(done + 1).drop_last() =~= orig_rows.take(done));
            assert(orig_people.take(done + 1).drop_last() =~= orig_people.take(done));
        }
        let AuthoredRow { key, parent, child, author_id, author } = a;
        folder.push_row(Row { key, parent, child });
        note_participant(&mut people, author_id, author);
    }
    proof {
        assert(orig_rows.take(orig.len() as int) =~= orig_rows);
        assert(orig_people.take(orig.len() as int) =~= orig_people);
    }
    (folder.into_groups(), people)
}

} // verus!
