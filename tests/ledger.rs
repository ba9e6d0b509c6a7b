use forum::ledger::{AuditEntry, DeletePlan, Ledger, LedgerError, ThreadEntry, plan_delete};

fn positions(t: &ThreadEntry) -> Vec<u32> {
    t.posts.iter().map(|p| p.post_pos).collect()
}

fn ids(t: &ThreadEntry) -> Vec<u32> {
    t.posts.iter().map(|p| p.post_id).collect()
}

#[test]
fn create_append_delete_scenario() {
    let mut l = Ledger::new();
    let (tid, first_post) = l.create_thread(7, 100, "title".to_string(), "first".to_string()).unwrap();
    let a2 = l.append(tid, 101, "second".to_string()).unwrap();
    let a3 = l.append(tid, 102, "third".to_string()).unwrap();
    assert_eq!(a2.post_pos, 2);
    assert_eq!(a3.post_pos, 3);
    let d = l.delete(a2.post_id, 101, false).unwrap();
    assert!(!d.thread_removed);
    assert_eq!(d.audit, None);
    let t = l.thread(tid).unwrap();
    assert_eq!(ids(t), vec![first_post, a3.post_id]);
    assert_eq!(positions(t), vec![1, 2]);
    assert_eq!(t.last_pos, 2);
    assert_eq!(t.posts[1].content, "third");
}

#[test]
fn deleting_first_post_removes_thread() {
    let mut l = Ledger::new();
    let (tid, first_post) = l.create_thread(1, 5, "t".to_string(), "a".to_string()).unwrap();
    let a = l.append(tid, 6, "b".to_string()).unwrap();
    let (other, _) = l.create_thread(1, 5, "u".to_string(), "c".to_string()).unwrap();
    let d = l.delete(first_post, 5, false).unwrap();
    assert!(d.thread_removed);
    assert_eq!(d.audit, Some(AuditEntry::ThreadDeleted { actor_id: 5, thread_id: tid }));
    assert!(l.thread(tid).is_none());
    assert_eq!(l.append(tid, 5, "x".to_string()), Err(LedgerError::NotFound));
    assert_eq!(l.delete(a.post_id, 6, false), Err(LedgerError::NotFound));
    assert!(l.thread(other).is_some());
}

#[test]
fn deleting_middle_post_shifts_later_posts() {
    let mut l = Ledger::new();
    let (tid, _) = l.create_thread(1, 1, "t".to_string(), "post 1".to_string()).unwrap();
    let mut appended = vec![];
    for n in 2..=6u32 {
        appended.push(l.append(tid, n, format!("post {}", n)).unwrap());
    }
    // delete the post at position 3
    let target = appended[1];
    assert_eq!(target.post_pos, 3);
    let d = l.delete(target.post_id, 99, true).unwrap();
    assert_eq!(
        d.audit,
        Some(AuditEntry::PostDeleted { actor_id: 99, post_id: target.post_id, thread_id: tid })
    );
    let t = l.thread(tid).unwrap();
    assert_eq!(t.last_pos, 5);
    assert_eq!(positions(t), vec![1, 2, 3, 4, 5]);
    let contents: Vec<&str> = t.posts.iter().map(|p| p.content.as_str()).collect();
    assert_eq!(contents, vec!["post 1", "post 2", "post 4", "post 5", "post 6"]);
}

#[test]
fn positions_stay_dense_over_many_operations() {
    let mut l = Ledger::new();
    let (tid, _) = l.create_thread(1, 1, "t".to_string(), "p".to_string()).unwrap();
    let mut posts = vec![];
    for n in 0..12u32 {
        posts.push(l.append(tid, n, "x".to_string()).unwrap());
    }
    for k in [3usize, 0, 7, 10] {
        l.delete(posts[k].post_id, 0, true).unwrap();
        let t = l.thread(tid).unwrap();
        let expected: Vec<u32> = (1..=t.last_pos).collect();
        assert_eq!(positions(t), expected);
        assert_eq!(t.posts.len() as u32, t.last_pos);
    }
    assert_eq!(l.thread(tid).unwrap().last_pos, 9);
}

#[test]
fn appends_get_consecutive_distinct_positions() {
    let mut l = Ledger::new();
    let (tid, _) = l.create_thread(1, 1, "t".to_string(), "p".to_string()).unwrap();
    let a = l.append(tid, 2, "a".to_string()).unwrap();
    let b = l.append(tid, 3, "b".to_string()).unwrap();
    assert_ne!(a.post_pos, b.post_pos);
    assert_eq!(b.post_pos, a.post_pos + 1);
    assert_ne!(a.post_id, b.post_id);
}

#[test]
fn append_reports_page_number() {
    let mut l = Ledger::new();
    let (tid, _) = l.create_thread(1, 1, "t".to_string(), "p".to_string()).unwrap();
    let mut last = None;
    for _ in 0..10 {
        last = Some(l.append(tid, 1, "x".to_string()).unwrap());
    }
    let a = last.unwrap();
    assert_eq!(a.post_pos, 11);
    assert_eq!(a.page_num, 2);
    let t = l.thread(tid).unwrap();
    assert_eq!(t.posts[9].post_pos, 10);
}

#[test]
fn delete_by_stranger_is_forbidden() {
    let mut l = Ledger::new();
    let (tid, _) = l.create_thread(1, 1, "t".to_string(), "p".to_string()).unwrap();
    let a = l.append(tid, 2, "a".to_string()).unwrap();
    assert_eq!(l.delete(a.post_id, 3, false), Err(LedgerError::Forbidden));
    assert_eq!(l.thread(tid).unwrap().last_pos, 2);
}

#[test]
fn unknown_ids_are_not_found() {
    let mut l = Ledger::new();
    assert_eq!(l.append(42, 1, "a".to_string()), Err(LedgerError::NotFound));
    assert_eq!(l.delete(42, 1, true), Err(LedgerError::NotFound));
    assert!(l.thread(42).is_none());
}

#[test]
fn plan_delete_decisions() {
    assert_eq!(plan_delete(1, false, 2, 2, 3), DeletePlan::Forbidden);
    assert_eq!(plan_delete(1, false, 1, 1, 3), DeletePlan::RemoveThread);
    assert_eq!(plan_delete(9, true, 1, 1, 3), DeletePlan::RemoveThread);
    assert_eq!(plan_delete(1, false, 1, 2, 3), DeletePlan::RemovePost { new_last_pos: 2, audited: false });
    assert_eq!(plan_delete(9, true, 1, 3, 3), DeletePlan::RemovePost { new_last_pos: 2, audited: true });
}

#[test]
fn pages_list_positions_in_order() {
    let mut l = Ledger::new();
    let (tid, first) = l.create_thread(1, 1, "t".to_string(), "p".to_string()).unwrap();
    let mut all = vec![first];
    for _ in 0..11 {
        all.push(l.append(tid, 1, "x".to_string()).unwrap().post_id);
    }
    assert_eq!(l.page_post_ids(tid, 1).unwrap(), all[0..10].to_vec());
    assert_eq!(l.page_post_ids(tid, 2).unwrap(), all[10..12].to_vec());
    assert_eq!(l.page_post_ids(tid, 3).unwrap(), Vec::<u32>::new());
    assert_eq!(l.page_post_ids(tid, 0), Err(LedgerError::InvalidPage));
    assert_eq!(l.page_post_ids(tid + 1, 1), Err(LedgerError::NotFound));
}

#[test]
fn reactions_are_unique_per_post_reactor_symbol() {
    let mut l = Ledger::new();
    let (_, p) = l.create_thread(1, 1, "t".to_string(), "p".to_string()).unwrap();
    assert_eq!(l.add_reaction(p, 7, "+1"), Ok(true));
    assert_eq!(l.add_reaction(p, 7, "+1"), Ok(false));
    assert_eq!(l.add_reaction(p, 7, "-1"), Ok(true));
    assert_eq!(l.add_reaction(p, 8, "+1"), Ok(true));
    assert_eq!(l.add_reaction(999, 7, "+1"), Err(LedgerError::NotFound));
    assert_eq!(l.add_reaction(p, 7, "0123456789abcdefg"), Err(LedgerError::InvalidSymbol));
    assert!(l.remove_reaction(p, 7, "+1"));
    assert!(!l.remove_reaction(p, 7, "+1"));
    assert_eq!(l.add_reaction(p, 7, "+1"), Ok(true));
}

#[test]
fn deletes_take_exactly_their_posts_reactions() {
    let mut l = Ledger::new();
    let (tid, first) = l.create_thread(1, 1, "t".to_string(), "p".to_string()).unwrap();
    let second = l.append(tid, 2, "q".to_string()).unwrap().post_id;
    let (other, other_first) = l.create_thread(1, 3, "u".to_string(), "r".to_string()).unwrap();
    l.add_reaction(first, 5, "a").unwrap();
    l.add_reaction(second, 5, "b").unwrap();
    l.add_reaction(other_first, 5, "c").unwrap();
    l.delete(second, 2, false).unwrap();
    // the reaction on the deleted post is gone, the others stay
    assert!(!l.remove_reaction(second, 5, "b"));
    assert_eq!(l.add_reaction(first, 5, "a"), Ok(false));
    assert_eq!(l.add_reaction(other_first, 5, "c"), Ok(false));
    l.delete(first, 1, false).unwrap();
    assert!(l.thread(tid).is_none());
    assert!(!l.remove_reaction(first, 5, "a"));
    assert!(l.remove_reaction(other_first, 5, "c"));
    assert!(l.thread(other).is_some());
}
