use xrds_runtime::visibility::visibility_fix_order;

#[test]
fn nothing_to_fix_without_links() {
    assert!(visibility_fix_order(&vec![], &vec![1, 2]).is_empty());
}

#[test]
fn entities_without_missing_components_are_skipped() {
    assert!(visibility_fix_order(&vec![(2, 1), (3, 2)], &vec![]).is_empty());
    assert_eq!(visibility_fix_order(&vec![(2, 1), (3, 2)], &vec![3, 9]), vec![3]);
}

#[test]
fn ancestors_come_before_descendants() {
    // 4 -> 3 -> 2 -> 1, listed leaf first.
    let pairs = vec![(4, 3), (3, 2), (2, 1)];
    assert_eq!(visibility_fix_order(&pairs, &vec![1, 2, 3, 4]), vec![1, 2, 3, 4]);
}

#[test]
fn equal_depths_keep_their_first_mention_order() {
    // Two children of 1, each with a child; 1 itself is complete.
    let pairs = vec![(5, 3), (3, 1), (4, 2), (2, 1)];
    // Depths among the lacking: 5 -> 1 (3), 3 -> 0, 4 -> 1 (2), 2 -> 0.
    assert_eq!(visibility_fix_order(&pairs, &vec![2, 3, 4, 5]), vec![3, 2, 5, 4]);
}

#[test]
fn only_lacking_ancestors_count() {
    // 3 -> 2 -> 1 with 2 complete: of the ancestors of 3 only 1 counts.
    let pairs = vec![(3, 2), (2, 1)];
    assert_eq!(visibility_fix_order(&pairs, &vec![3, 1]), vec![1, 3]);
}

#[test]
fn a_cycle_of_links_ends_the_walk() {
    // 1 -> 2 -> 1: each walk stops when it meets an ancestor again.
    let pairs = vec![(1, 2), (2, 1), (3, 1)];
    // 1: 2, then 1 (counted once), then 2 again: depth 2. 2: 1, 2: depth 2. 3: 1, 2: depth 2.
    assert_eq!(visibility_fix_order(&pairs, &vec![1, 2, 3]), vec![1, 2, 3]);
}

#[test]
fn the_last_link_of_a_child_is_its_parent() {
    // 3 is linked under 1 and then under 2: 2 is its parent.
    let pairs = vec![(3, 1), (3, 2), (2, 4)];
    // Mention order: 3, 1, 2, 4. Depths: 3 -> 2 -> 4 gives 2; 1 gives 0; 2 -> 4 gives 1; 4 gives 0.
    assert_eq!(visibility_fix_order(&pairs, &vec![1, 2, 3, 4]), vec![1, 4, 2, 3]);
}
