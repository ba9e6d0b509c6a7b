use forum::reactions::{fold_reactions, valid_symbol, viewer_id, MissingTally, Reaction, ReactionRow, ANONYMOUS_VIEWER};

fn r(post_id: u32, sym: Option<&str>, count: Option<u32>, reacted: Option<bool>) -> ReactionRow<String, u32> {
    ReactionRow {
        post_id,
        post: format!("post {}", post_id),
        author_id: post_id * 10,
        author: post_id,
        symbol: sym.map(|s| s.to_string()),
        count,
        reacted,
    }
}

#[test]
fn post_without_reactions_has_empty_map() {
    let (posts, people) = fold_reactions(vec![r(5, None, None, None)]).unwrap();
    assert_eq!(posts.len(), 1);
    assert_eq!(posts[0].post_id, 5);
    assert!(posts[0].reactions.is_empty());
    assert_eq!(people[&50], 5);
}

#[test]
fn tallies_become_reaction_entries() {
    let rows = vec![r(5, Some("+1"), Some(3), Some(true)), r(5, Some("-1"), Some(1), Some(false))];
    let (posts, _) = fold_reactions(rows).unwrap();
    assert_eq!(posts.len(), 1);
    assert_eq!(
        posts[0].reactions,
        vec![
            ("+1".to_string(), Reaction { count: 3, reacted: true }),
            ("-1".to_string(), Reaction { count: 1, reacted: false }),
        ]
    );
}

#[test]
fn posts_keep_page_order() {
    let rows = vec![
        r(1, Some("a"), Some(2), Some(false)),
        r(2, None, None, None),
        r(3, Some("b"), Some(1), Some(true)),
        r(3, Some("c"), Some(4), Some(false)),
    ];
    let (posts, people) = fold_reactions(rows).unwrap();
    let ids: Vec<u32> = posts.iter().map(|p| p.post_id).collect();
    assert_eq!(ids, vec![1, 2, 3]);
    assert_eq!(posts[0].post, "post 1");
    assert_eq!(posts[1].reactions.len(), 0);
    assert_eq!(posts[2].reactions.len(), 2);
    assert_eq!(people.len(), 3);
}

#[test]
fn symbol_without_tally_is_an_error() {
    let rows = vec![r(1, None, None, None), r(2, Some("x"), None, Some(true))];
    assert_eq!(fold_reactions(rows).err(), Some(MissingTally { post_id: 2 }));
}

#[test]
fn anonymous_viewer_is_sentinel() {
    assert_eq!(viewer_id(None), ANONYMOUS_VIEWER);
    assert_eq!(viewer_id(Some(12)), 12);
}

#[test]
fn symbols_up_to_sixteen_bytes_are_valid() {
    assert!(valid_symbol("+1"));
    assert!(valid_symbol("0123456789abcdef"));
    assert!(!valid_symbol("0123456789abcdefg"));
    assert!(!valid_symbol("ééééééééé"));
    assert!(valid_symbol(""));
}

#[test]
fn repeated_symbol_keeps_one_entry_with_later_tally() {
    let rows = vec![
        r(4, Some("+1"), Some(1), Some(false)),
        r(4, Some("ok"), Some(2), Some(false)),
        r(4, Some("+1"), Some(5), Some(true)),
    ];
    let (posts, _) = fold_reactions(rows).unwrap();
    assert_eq!(
        posts[0].reactions,
        vec![
            ("+1".to_string(), Reaction { count: 5, reacted: true }),
            ("ok".to_string(), Reaction { count: 2, reacted: false }),
        ]
    );
}
