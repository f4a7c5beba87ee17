use tender_hub::hub::SecureTenderHub;
use tender_hub::records::OpError;
use tender_hub::records::TenderStatus;

const AUTHORITY_A: u64 = 1;
const AUTHORITY_B: u64 = 2;
const VENDOR_X: u64 = 10;
const VENDOR_Y: u64 = 11;

fn hub_with_open_tender() -> SecureTenderHub {
    let mut h = SecureTenderHub::new();
    assert_eq!(h.create_tender(1, AUTHORITY_A, String::from("Road works")), Ok(()));
    h
}

#[test]
fn create_tender_then_read_back() {
    let h = hub_with_open_tender();
    let t = h.get_tender(1).unwrap();
    assert_eq!(t.tender_id, 1);
    assert_eq!(t.authority, AUTHORITY_A);
    assert_eq!(t.title, "Road works");
    assert!(matches!(t.status, TenderStatus::Open));
    assert_eq!(t.winning_bid, None);
    let bids = h.get_bids(1).unwrap();
    assert_eq!(bids.len(), 0);
}

#[test]
fn create_tender_duplicate_id_fails() {
    let mut h = hub_with_open_tender();
    assert_eq!(h.create_tender(1, AUTHORITY_B, String::from("Other")), Err(OpError::KeyExists));
    // the original record survives the refused second creation
    let t = h.get_tender(1).unwrap();
    assert_eq!(t.authority, AUTHORITY_A);
    assert_eq!(t.title, "Road works");
}

#[test]
fn missing_tender_reads_none() {
    let h = SecureTenderHub::new();
    assert!(h.get_tender(7).is_none());
    assert!(h.get_bids(7).is_none());
}

#[test]
fn submit_bid_then_read_back() {
    let mut h = hub_with_open_tender();
    assert_eq!(h.submit_bid(10, 1, VENDOR_X, 500, String::from("bid A")), Ok(()));
    assert_eq!(h.submit_bid(11, 1, VENDOR_Y, 600, String::from("bid B")), Ok(()));
    let bids = h.get_bids(1).unwrap();
    assert_eq!(bids.len(), 2);
    assert_eq!(bids[0].bid_id, 10);
    assert_eq!(bids[0].tender_id, 1);
    assert_eq!(bids[0].vendor, VENDOR_X);
    assert_eq!(bids[0].amount, 500);
    assert_eq!(bids[0].details, "bid A");
    assert_eq!(bids[1].bid_id, 11);
    assert_eq!(bids[1].vendor, VENDOR_Y);
    assert_eq!(bids[1].amount, 600);
    assert_eq!(bids[1].details, "bid B");
}

#[test]
fn submit_bid_duplicate_bid_id_fails() {
    let mut h = hub_with_open_tender();
    assert_eq!(h.submit_bid(10, 1, VENDOR_X, 500, String::from("bid A")), Ok(()));
    assert_eq!(
        h.submit_bid(10, 1, VENDOR_Y, 600, String::from("bid B")),
        Err(OpError::KeyExists)
    );
    let bids = h.get_bids(1).unwrap();
    assert_eq!(bids.len(), 1);
    assert_eq!(bids[0].vendor, VENDOR_X);
}

#[test]
fn submit_bid_rejects_non_positive_amount() {
    let mut h = hub_with_open_tender();
    assert_eq!(h.submit_bid(10, 1, VENDOR_X, 0, String::from("zero")), Err(OpError::InvalidArgument));
    assert_eq!(
        h.submit_bid(10, 1, VENDOR_X, -5, String::from("negative")),
        Err(OpError::InvalidArgument)
    );
    assert_eq!(h.get_bids(1).unwrap().len(), 0);
}

#[test]
fn submit_bid_against_missing_tender_fails() {
    let mut h = SecureTenderHub::new();
    assert_eq!(h.submit_bid(10, 9, VENDOR_X, 500, String::from("bid")), Err(OpError::NotFound));
}

#[test]
fn award_tender_marks_winner() {
    let mut h = hub_with_open_tender();
    assert_eq!(h.submit_bid(10, 1, VENDOR_X, 500, String::from("bid A")), Ok(()));
    assert_eq!(h.award_tender(1, AUTHORITY_A, 10), Ok(()));
    let t = h.get_tender(1).unwrap();
    assert!(matches!(t.status, TenderStatus::Awarded));
    assert_eq!(t.winning_bid, Some(10));
}

#[test]
fn submit_bid_after_award_fails() {
    let mut h = hub_with_open_tender();
    assert_eq!(h.submit_bid(10, 1, VENDOR_X, 500, String::from("bid A")), Ok(()));
    assert_eq!(h.award_tender(1, AUTHORITY_A, 10), Ok(()));
    assert_eq!(
        h.submit_bid(11, 1, VENDOR_Y, 600, String::from("late")),
        Err(OpError::InvalidState)
    );
    // the bid list is immutable once the tender is no longer open
    assert_eq!(h.get_bids(1).unwrap().len(), 1);
}

#[test]
fn award_tender_wrong_authority_fails() {
    let mut h = hub_with_open_tender();
    assert_eq!(h.submit_bid(10, 1, VENDOR_X, 500, String::from("bid A")), Ok(()));
    assert_eq!(h.award_tender(1, AUTHORITY_B, 10), Err(OpError::Unauthorized));
    let t = h.get_tender(1).unwrap();
    assert!(matches!(t.status, TenderStatus::Open));
    assert_eq!(t.winning_bid, None);
}

#[test]
fn award_tender_unknown_bid_fails() {
    let mut h = hub_with_open_tender();
    assert_eq!(h.submit_bid(10, 1, VENDOR_X, 500, String::from("bid A")), Ok(()));
    assert_eq!(h.award_tender(1, AUTHORITY_A, 99), Err(OpError::NotFound));
    let t = h.get_tender(1).unwrap();
    assert!(matches!(t.status, TenderStatus::Open));
}

#[test]
fn award_tender_missing_tender_fails() {
    let mut h = SecureTenderHub::new();
    assert_eq!(h.award_tender(9, AUTHORITY_A, 10), Err(OpError::NotFound));
}

#[test]
fn award_tender_twice_fails() {
    let mut h = hub_with_open_tender();
    assert_eq!(h.submit_bid(10, 1, VENDOR_X, 500, String::from("bid A")), Ok(()));
    assert_eq!(h.award_tender(1, AUTHORITY_A, 10), Ok(()));
    assert_eq!(h.award_tender(1, AUTHORITY_A, 10), Err(OpError::InvalidState));
    let t = h.get_tender(1).unwrap();
    assert!(matches!(t.status, TenderStatus::Awarded));
    assert_eq!(t.winning_bid, Some(10));
}

#[test]
fn cancel_tender_is_terminal() {
    let mut h = hub_with_open_tender();
    assert_eq!(h.cancel_tender(1, AUTHORITY_A), Ok(()));
    let t = h.get_tender(1).unwrap();
    assert!(matches!(t.status, TenderStatus::Cancelled));
    assert_eq!(t.winning_bid, None);
    assert_eq!(h.cancel_tender(1, AUTHORITY_A), Err(OpError::InvalidState));
    assert_eq!(h.submit_bid(10, 1, VENDOR_X, 500, String::from("late")), Err(OpError::InvalidState));
    assert_eq!(h.award_tender(1, AUTHORITY_A, 10), Err(OpError::InvalidState));
}

#[test]
fn cancel_tender_wrong_authority_fails() {
    let mut h = hub_with_open_tender();
    assert_eq!(h.cancel_tender(1, AUTHORITY_B), Err(OpError::Unauthorized));
    assert!(matches!(h.get_tender(1).unwrap().status, TenderStatus::Open));
}

#[test]
fn cancel_tender_missing_tender_fails() {
    let mut h = SecureTenderHub::new();
    assert_eq!(h.cancel_tender(9, AUTHORITY_A), Err(OpError::NotFound));
}

#[test]
fn tenders_are_independent() {
    let mut h = hub_with_open_tender();
    assert_eq!(h.create_tender(2, AUTHORITY_B, String::from("Bridge repair")), Ok(()));
    assert_eq!(h.submit_bid(10, 1, VENDOR_X, 500, String::from("on 1")), Ok(()));
    // the same bid id is free under the other tender
    assert_eq!(h.submit_bid(10, 2, VENDOR_Y, 700, String::from("on 2")), Ok(()));
    assert_eq!(h.cancel_tender(1, AUTHORITY_A), Ok(()));
    let t2 = h.get_tender(2).unwrap();
    assert!(matches!(t2.status, TenderStatus::Open));
    assert_eq!(h.get_bids(2).unwrap().len(), 1);
    assert_eq!(h.get_bids(2).unwrap()[0].amount, 700);
}
