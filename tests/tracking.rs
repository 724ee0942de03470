use wgpu_core::track::{MembershipTracker, PendingTransition, ResourceTracker, TrackerSet};

fn tracker(entries: &[(u64, u32)]) -> ResourceTracker {
    let mut t = ResourceTracker::new();
    for &(id, usage) in entries {
        t.set(id, usage);
    }
    t
}

#[test]
fn merge_replace_reports_changed_usages_only() {
    let mut base = tracker(&[(1, 0x1), (2, 0x2)]);
    let head = tracker(&[(1, 0x1), (2, 0x4), (3, 0x8)]);
    let r = base.merge_replace(&head);
    assert_eq!(
        r,
        vec![
            PendingTransition { id: 2, before: Some(0x2), after: 0x4 },
            PendingTransition { id: 3, before: None, after: 0x8 },
        ]
    );
    assert_eq!(base.query(1), Some(0x1));
    assert_eq!(base.query(2), Some(0x4));
    assert_eq!(base.query(3), Some(0x8));
}

#[test]
fn merge_replace_converges_to_head() {
    let mut base = tracker(&[(5, 0x10), (6, 0x20), (7, 0x40)]);
    let head = tracker(&[(6, 0x1), (9, 0x2)]);
    base.merge_replace(&head);
    assert_eq!(base.query(6), head.query(6));
    assert_eq!(base.query(9), head.query(9));
    assert_eq!(base.query(5), Some(0x10));
    assert_eq!(base.query(7), Some(0x40));
    let again = base.merge_replace(&head);
    assert!(again.is_empty());
}

#[test]
fn merge_replace_with_empty_head_changes_nothing() {
    let mut base = tracker(&[(1, 0x1)]);
    let r = base.merge_replace(&ResourceTracker::new());
    assert!(r.is_empty());
    assert_eq!(base.query(1), Some(0x1));
    assert_eq!(base.query(2), None);
}

#[test]
fn set_replaces_usage_of_same_identity() {
    let mut t = ResourceTracker::new();
    t.set(4, 0x1);
    t.set(4, 0x2);
    assert_eq!(t.query(4), Some(0x2));
    assert_eq!(t.states.entries.len(), 1);
}

#[test]
fn merge_extend_unites_memberships() {
    let mut base = MembershipTracker::new();
    base.insert(1);
    base.insert(2);
    let mut head = MembershipTracker::new();
    head.insert(2);
    head.insert(3);
    base.merge_extend(&head);
    assert!(base.contains(1));
    assert!(base.contains(2));
    assert!(base.contains(3));
    assert!(!base.contains(4));
    assert_eq!(base.ids.len(), 3);
}

#[test]
fn membership_remove_drops_only_that_identity() {
    let mut t = MembershipTracker::new();
    t.insert(1);
    t.insert(2);
    t.remove(1);
    assert!(!t.contains(1));
    assert!(t.contains(2));
    t.remove(9);
    assert!(t.contains(2));
}

#[test]
fn tracker_set_starts_empty() {
    let t = TrackerSet::new();
    assert_eq!(t.buffers.query(0), None);
    assert!(!t.views.contains(0));
    assert!(!t.bundles.contains(0));
}
