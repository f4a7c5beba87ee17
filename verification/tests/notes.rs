use tender_hub::hub::SecureTenderHub;
use tender_hub::records::OpError;

const USER_1: u64 = 100;
const USER_2: u64 = 200;

#[test]
fn add_note_ids_count_up_from_one() {
    let mut h = SecureTenderHub::new();
    assert_eq!(h.add_note(USER_1, true, 1000, String::from("t"), String::from("b")), Ok(1));
    assert_eq!(h.add_note(USER_1, true, 1001, String::from("t2"), String::from("b2")), Ok(2));
    assert_eq!(h.notes_count(USER_1), 2);
}

#[test]
fn add_note_then_read_back() {
    let mut h = SecureTenderHub::new();
    assert_eq!(h.add_note(USER_1, true, 1000, String::from("t"), String::from("b")), Ok(1));
    let n = h.view_note(USER_1, 1).unwrap();
    assert_eq!(n.id, 1);
    assert_eq!(n.title, "t");
    assert_eq!(n.body, "b");
    assert_eq!(n.timestamp, 1000);
    assert!(!n.deleted);
}

#[test]
fn add_note_unauthorized_changes_nothing() {
    let mut h = SecureTenderHub::new();
    assert_eq!(
        h.add_note(USER_1, false, 1000, String::from("t"), String::from("b")),
        Err(OpError::Unauthorized)
    );
    assert_eq!(h.notes_count(USER_1), 0);
    assert!(matches!(h.view_note(USER_1, 1), Err(OpError::NotFound)));
}

#[test]
fn notes_count_defaults_to_zero() {
    let h = SecureTenderHub::new();
    assert_eq!(h.notes_count(USER_1), 0);
}

#[test]
fn note_ids_are_scoped_per_owner() {
    let mut h = SecureTenderHub::new();
    assert_eq!(h.add_note(USER_1, true, 1000, String::from("a"), String::from("x")), Ok(1));
    assert_eq!(h.add_note(USER_2, true, 1001, String::from("b"), String::from("y")), Ok(1));
    assert_eq!(h.add_note(USER_2, true, 1002, String::from("c"), String::from("z")), Ok(2));
    assert_eq!(h.notes_count(USER_1), 1);
    assert_eq!(h.notes_count(USER_2), 2);
    assert_eq!(h.view_note(USER_1, 1).unwrap().title, "a");
    assert_eq!(h.view_note(USER_2, 1).unwrap().title, "b");
}

#[test]
fn view_note_missing_id_fails() {
    let mut h = SecureTenderHub::new();
    assert_eq!(h.add_note(USER_1, true, 1000, String::from("t"), String::from("b")), Ok(1));
    assert!(matches!(h.view_note(USER_1, 2), Err(OpError::NotFound)));
    assert!(matches!(h.view_note(USER_2, 1), Err(OpError::NotFound)));
}

#[test]
fn removed_note_still_resolves_with_sentinel() {
    let mut h = SecureTenderHub::new();
    assert_eq!(h.add_note(USER_1, true, 1000, String::from("t"), String::from("b")), Ok(1));
    assert_eq!(h.add_note(USER_1, true, 1001, String::from("t2"), String::from("b2")), Ok(2));
    assert_eq!(h.remove_note(USER_1, true, 2000, 1), Ok(()));
    let n = h.view_note(USER_1, 1).unwrap();
    assert_eq!(n.id, 1);
    assert_eq!(n.title, "DELETED");
    assert_eq!(n.body, "");
    assert_eq!(n.timestamp, 2000);
    assert!(n.deleted);
    // the other note and the counter are untouched
    assert_eq!(h.view_note(USER_1, 2).unwrap().title, "t2");
    assert_eq!(h.notes_count(USER_1), 2);
}

#[test]
fn remove_note_never_reuses_ids() {
    let mut h = SecureTenderHub::new();
    assert_eq!(h.add_note(USER_1, true, 1000, String::from("t"), String::from("b")), Ok(1));
    assert_eq!(h.remove_note(USER_1, true, 2000, 1), Ok(()));
    // the next note takes the next id, not the removed one
    assert_eq!(h.add_note(USER_1, true, 3000, String::from("t2"), String::from("b2")), Ok(2));
    assert_eq!(h.view_note(USER_1, 1).unwrap().title, "DELETED");
    assert_eq!(h.view_note(USER_1, 2).unwrap().title, "t2");
}

#[test]
fn remove_note_missing_id_fails() {
    let mut h = SecureTenderHub::new();
    assert_eq!(h.add_note(USER_1, true, 1000, String::from("t"), String::from("b")), Ok(1));
    assert_eq!(h.remove_note(USER_1, true, 2000, 3), Err(OpError::NotFound));
    // a caller can only ever address their own notes
    assert_eq!(h.remove_note(USER_2, true, 2000, 1), Err(OpError::NotFound));
    assert!(!h.view_note(USER_1, 1).unwrap().deleted);
}

#[test]
fn remove_note_unauthorized_changes_nothing() {
    let mut h = SecureTenderHub::new();
    assert_eq!(h.add_note(USER_1, true, 1000, String::from("t"), String::from("b")), Ok(1));
    assert_eq!(h.remove_note(USER_1, false, 2000, 1), Err(OpError::Unauthorized));
    let n = h.view_note(USER_1, 1).unwrap();
    assert_eq!(n.title, "t");
    assert!(!n.deleted);
}

#[test]
fn ledgers_do_not_interfere() {
    let mut h = SecureTenderHub::new();
    assert_eq!(h.create_tender(1, 1, String::from("Road works")), Ok(()));
    assert_eq!(h.add_note(USER_1, true, 1000, String::from("t"), String::from("b")), Ok(1));
    assert_eq!(h.submit_bid(10, 1, 10, 500, String::from("bid A")), Ok(()));
    assert_eq!(h.remove_note(USER_1, true, 2000, 1), Ok(()));
    assert_eq!(h.get_bids(1).unwrap().len(), 1);
    assert_eq!(h.notes_count(USER_1), 1);
    assert_eq!(h.get_tender(1).unwrap().title, "Road works");
}
