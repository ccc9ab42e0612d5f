use term_editor::change_tracking_list::{Change, ChangeTrackingVec};

#[test]
fn test_new() {
    let v = ChangeTrackingVec::new(vec![1, 2, 3]);
    assert_eq!(*v.items(), vec![1, 2, 3]);
    assert_eq!(v.order_changes().len(), 3);
    assert_eq!(v.current_changes().len(), 0);
}

#[test]
fn test_push() {
    let mut v = ChangeTrackingVec::new(vec![1, 2, 3]);
    v.push(4);
    assert_eq!(*v.items(), vec![1, 2, 3, 4]);
    assert_eq!(v.order_changes().len(), 4);
    assert_eq!(v.current_changes().len(), 1);
    assert_eq!(v.current_changes()[0], Change::Pushed());
}

#[test]
fn test_move_item() {
    let mut v = ChangeTrackingVec::new(vec![1, 2, 3]);
    v.move_item(0, 2);
    assert_eq!(*v.items(), vec![2, 3, 1]);
}

#[test]
fn test_remove() {
    let mut v = ChangeTrackingVec::new(vec![1, 2, 3]);
    v.remove(1);
    assert_eq!(*v.items(), vec![1, 3]);
    assert_eq!(v.order_changes().len(), 2);
    assert_eq!(v.current_changes().len(), 1);
    assert_eq!(v.current_changes()[0], Change::Removed(1, 2));
}

#[test]
fn test_flush_order_changes() {
    let mut v = ChangeTrackingVec::new(vec![1, 2, 3]);
    v.move_item(0, 2);
    assert_eq!(*v.items(), vec![2, 3, 1]);
    assert_eq!(v.order_has_changed(), true);
    let order_changes = v.flush_order_changes().unwrap();
    assert_eq!(order_changes, vec![1, 2, 0]);
    assert_eq!(v.order_has_changed(), false);
    assert_eq!(v.order_changes().len(), 3);
}

#[test]
fn test_push_after_move() {
    let mut v = ChangeTrackingVec::new(vec![1, 2, 3]);
    v.move_item(0, 2);
    assert_eq!(*v.items(), vec![2, 3, 1]);
    v.push(69);
    assert_eq!(*v.items(), vec![2, 3, 1, 69]);
    assert_eq!(v.order_changes().len(), 4);
    let current_changes = v.get_current_changes();
    assert_eq!(current_changes.len(), 2);
    assert_eq!(current_changes[0], Change::Moved(vec![1, 2, 0]));
    assert_eq!(current_changes[1], Change::Pushed());
}

#[test]
fn test_remove_after_move() {
    let mut v = ChangeTrackingVec::new(vec![1, 2, 3]);
    v.move_item(0, 2);
    assert_eq!(*v.items(), vec![2, 3, 1]);
    v.remove(1);
    assert_eq!(*v.items(), vec![2, 1]);
    assert_eq!(v.order_changes().len(), 2);
    let current_changes = v.get_current_changes();
    assert_eq!(current_changes.len(), 2);
    assert_eq!(current_changes[0], Change::Moved(vec![1, 2, 0]));
    assert_eq!(current_changes[1], Change::Removed(1, 3));
}

#[test]
fn test_iter() {
    let v = ChangeTrackingVec::new(vec![1, 2, 3]);
    let new_vec: Vec<&i32> = v.iter().collect();
    assert_eq!(new_vec, vec![&1, &2, &3]);
}

#[test]
fn test_iter_mut() {
    let mut v = ChangeTrackingVec::new(vec![1, 2, 3]);
    let mut new_vec: Vec<&mut i32> = v.iter_mut().collect();
    *new_vec[1] = 69;
    assert_eq!(*v.items(), vec![1, 69, 3]);
}

fn replay(base: &[char], changes: &[Change<char>]) -> Vec<Option<char>> {
    let mut r: Vec<Option<char>> = base.iter().map(|c| Some(*c)).collect();
    for change in changes {
        match change {
            Change::Pushed() => r.push(None),
            Change::Moved(order) => {
                r = (0..r.len())
                    .map(|i| if i < order.len() { r[order[i]] } else { None })
                    .collect()
            }
            Change::Removed(idx, _) => {
                r.remove(*idx);
            }
        }
    }
    r
}

#[test]
fn recorded_changes_replay_to_the_current_items() {
    let base = vec!['a', 'b', 'c'];
    let mut v = ChangeTrackingVec::new(base.clone());
    v.move_item(0, 2);
    v.push('d');
    v.remove(1);
    v.move_item(2, 0);
    v.push('e');
    let changes = v.get_current_changes();
    let replayed = replay(&base, &changes);
    assert_eq!(replayed.len(), v.len());
    for (i, slot) in replayed.iter().enumerate() {
        if let Some(item) = slot {
            assert_eq!(*item, v.items()[i]);
        }
    }
    assert_eq!(*v.items(), vec!['d', 'b', 'a', 'e']);
    assert_eq!(replayed, vec![None, Some('b'), Some('a'), None]);
}

/// Replays the edits with the pushed items; `None` when an edit does not fit.
fn replay_with_pushed(base: &[char], changes: &[Change<char>], pushed: &[char]) -> Option<Vec<char>> {
    let mut r: Vec<char> = base.to_vec();
    let mut next = 0;
    for change in changes {
        match change {
            Change::Pushed() => {
                r.push(*pushed.get(next)?);
                next += 1;
            }
            Change::Moved(order) => {
                if order.len() != r.len() || order.iter().any(|o| *o >= r.len()) {
                    return None;
                }
                r = order.iter().map(|o| r[*o]).collect();
            }
            Change::Removed(idx, item) => {
                if *idx >= r.len() || r[*idx] != *item {
                    return None;
                }
                r.remove(*idx);
            }
        }
    }
    if next == pushed.len() {
        Some(r)
    } else {
        None
    }
}

#[test]
fn recorded_changes_with_pushed_items_replay_to_the_items() {
    let base = vec!['a', 'b', 'c'];
    let mut v = ChangeTrackingVec::new(base.clone());
    v.move_item(0, 2);
    v.push('d');
    v.remove(1);
    v.move_item(2, 0);
    v.push('e');
    let changes = v.get_current_changes();
    assert_eq!(
        changes,
        vec![
            Change::Moved(vec![1, 2, 0]),
            Change::Pushed(),
            Change::Removed(1, 'c'),
            Change::Moved(vec![2, 0, 1]),
            Change::Pushed(),
        ]
    );
    assert_eq!(replay_with_pushed(&base, &changes, &['d', 'e']), Some(v.items().clone()));
    assert!(v.get_current_changes().is_empty());
}
