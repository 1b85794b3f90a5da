use std::collections::BTreeSet;

use paracord::routes::guilds::{default_channel_id, member_role_changes};

fn set(v: &[i64]) -> BTreeSet<i64> {
    v.iter().copied().collect()
}

#[test]
fn member_role_update_adds_and_removes() {
    let guild = 100;
    let (add, remove) = member_role_changes(&vec![1, 2, 2, 5], &vec![100, 2, 3], guild);
    assert_eq!(set(&add), set(&[1, 5]));
    assert_eq!(add.len(), 2);
    assert_eq!(set(&remove), set(&[3]));
    // The default role is never removed, even when not requested.
    let (add, remove) = member_role_changes(&vec![], &vec![100, 7], guild);
    assert!(add.is_empty());
    assert_eq!(remove, vec![7]);
}

#[test]
fn member_roles_after_update_match_request() {
    let guild = 9;
    let existing = vec![9, 4, 6];
    let requested = vec![6, 8];
    let (add, remove) = member_role_changes(&requested, &existing, guild);
    let mut after = set(&existing);
    after.extend(add.iter().copied());
    for r in &remove {
        after.remove(r);
    }
    assert_eq!(after, set(&[9, 6, 8]));
}

#[test]
fn default_channel_prefers_first_text_channel() {
    assert_eq!(default_channel_id(&vec![(10, 2), (11, 0), (12, 0)]), Some(11));
    assert_eq!(default_channel_id(&vec![(10, 2), (13, 4)]), Some(10));
    assert_eq!(default_channel_id(&vec![]), None);
}
