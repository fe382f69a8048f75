use std::cmp::Ordering;
use work_warden::tasks::{Recents, TaskID, TaskSet};

fn set_of(ids: &[u32]) -> TaskSet {
    let mut s = TaskSet::new();
    for &id in ids {
        s.insert(TaskID(id));
    }
    s
}

#[test]
fn task_set_is_sorted_and_unique() {
    let s = set_of(&[5, 1, 3, 1, 5]);
    assert_eq!(s.to_vec(), vec![TaskID(1), TaskID(3), TaskID(5)]);
    assert_eq!(s.len(), 3);
    assert!(s.contains(TaskID(3)));
    assert!(!s.contains(TaskID(4)));
}

#[test]
fn task_sets_compare_lexicographically() {
    assert_eq!(set_of(&[1, 2]).compare(&set_of(&[1, 3])), Ordering::Less);
    assert_eq!(set_of(&[1]).compare(&set_of(&[1, 3])), Ordering::Less);
    assert_eq!(set_of(&[2]).compare(&set_of(&[1, 3])), Ordering::Greater);
    assert_eq!(set_of(&[]).compare(&set_of(&[])), Ordering::Equal);
    assert_eq!(set_of(&[3, 1]).compare(&set_of(&[1, 3])), Ordering::Equal);
}

#[test]
fn make_recent_moves_to_the_end() {
    let mut r = Recents::new();
    r.make_recent(TaskID(1), false);
    r.make_recent(TaskID(2), false);
    r.make_recent(TaskID(1), false);
    assert_eq!(r.other, vec![TaskID(2), TaskID(1)]);
    r.make_recent(TaskID(2), true);
    assert_eq!(r.starred, vec![TaskID(2)]);
    assert_eq!(r.other, vec![TaskID(1)]);
}

#[test]
fn archive_removes_from_both_lists() {
    let mut r = Recents { starred: vec![TaskID(4), TaskID(7)], other: vec![TaskID(7), TaskID(8)] };
    r.archive(TaskID(7));
    assert_eq!(r.starred, vec![TaskID(4)]);
    assert_eq!(r.other, vec![TaskID(8)]);
}
