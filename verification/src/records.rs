//! The record types of the two ledgers and their mathematical models.
//!
//! Each executable record type carries a spec-level model (its [`View`])
//! holding the same data over `Seq<char>` instead of `String`, so that
//! contracts can speak of record contents without mentioning heap values.

use vstd::prelude::*;

verus! {

/// Lifecycle of a tender. It is created `Open`, and exactly one of the two
/// terminal transitions may happen afterwards: `Awarded` or `Cancelled`.
#[derive(Clone, Copy, PartialEq, Eq, Structural, Debug)]
pub enum TenderStatus {
    Open,
    Awarded,
    Cancelled,
}

/// Why an operation refused to run. Every precondition violation surfaces as
/// one of these; the state is left exactly as it was.
#[derive(Clone, Copy, PartialEq, Eq, Structural, Debug)]
pub enum OpError {
    /// A record already exists under the key the caller tried to create.
    KeyExists,
    /// No record exists under the key the caller named.
    NotFound,
    /// The caller is not the identity the operation demands.
    Unauthorized,
    /// The tender is no longer in the state the operation demands.
    InvalidState,
    /// An argument is out of the legal range.
    InvalidArgument,
}

/// A procurement tender, administered by the identity that created it.
#[derive(Clone)]
pub struct Tender {
    pub tender_id: u64,
    pub authority: u64,
    pub title: String,
    pub status: TenderStatus,
    /// The chosen bid's id; present exactly while `status` is `Awarded`.
    pub winning_bid: Option<u64>,
}

/// Model of a [`Tender`].
pub struct TenderModel {
    pub tender_id: u64,
    pub authority: u64,
    pub title: Seq<char>,
    pub status: TenderStatus,
    pub winning_bid: Option<u64>,
}

impl View for Tender {
    type V = TenderModel;

    open spec fn view(&self) -> TenderModel {
        TenderModel {
            tender_id: self.tender_id,
            authority: self.authority,
            title: self.title@,
            status: self.status,
            winning_bid: self.winning_bid,
        }
    }
}

/// A vendor's proposal against an open tender; immutable once submitted.
#[derive(Clone)]
pub struct Bid {
    pub bid_id: u64,
    pub tender_id: u64,
    pub vendor: u64,
    pub amount: i128,
    pub details: String,
}

/// Model of a [`Bid`].
pub struct BidModel {
    pub bid_id: u64,
    pub tender_id: u64,
    pub vendor: u64,
    pub amount: i128,
    pub details: Seq<char>,
}

impl View for Bid {
    type V = BidModel;

    open spec fn view(&self) -> BidModel {
        BidModel {
            bid_id: self.bid_id,
            tender_id: self.tender_id,
            vendor: self.vendor,
            amount: self.amount,
            details: self.details@,
        }
    }
}

/// One entry of an owner's note journal. Removal is a soft delete: the record
/// stays readable, with `deleted` set and the sentinel field values below.
#[derive(Clone)]
pub struct Note {
    /// Sequential per owner, starting at 1; never reused.
    pub id: u64,
    pub title: String,
    pub body: String,
    pub timestamp: u64,
    /// Tombstone flag: set once the note has been removed.
    pub deleted: bool,
}

/// Model of a [`Note`].
pub struct NoteModel {
    pub id: u64,
    pub title: Seq<char>,
    pub body: Seq<char>,
    pub timestamp: u64,
    pub deleted: bool,
}

impl View for Note {
    type V = NoteModel;

    open spec fn view(&self) -> NoteModel {
        NoteModel {
            id: self.id,
            title: self.title@,
            body: self.body@,
            timestamp: self.timestamp,
            deleted: self.deleted,
        }
    }
}

/// The marker text a removed note carries in place of its title.
pub open spec fn deleted_marker() -> Seq<char> {
    "DELETED"@
}

/// The record a removed note is overwritten with: the tombstone flag is set,
/// the title holds the fixed marker text, the body is cleared, and the
/// timestamp is the removal time.
pub open spec fn sentinel_note(id: u64, now: u64) -> NoteModel {
    NoteModel {
        id,
        title: deleted_marker(),
        body: Seq::<char>::empty(),
        timestamp: now,
        deleted: true,
    }
}

/// Copies a tender record field by field.
pub fn dup_tender(t: &Tender) -> (r: Tender)
    ensures
        r == *t,
{
    Tender {
        tender_id: t.tender_id,
        authority: t.authority,
        title: t.title.clone(),
        status: t.status,
        winning_bid: t.winning_bid,
    }
}

/// Copies a bid record field by field.
pub fn dup_bid(b: &Bid) -> (r: Bid)
    ensures
        r == *b,
{
    Bid {
        bid_id: b.bid_id,
        tender_id: b.tender_id,
        vendor: b.vendor,
        amount: b.amount,
        details: b.details.clone(),
    }
}

/// Copies a note record field by field.
pub fn dup_note(n: &Note) -> (r: Note)
    ensures
        r == *n,
{
    Note {
        id: n.id,
        title: n.title.clone(),
        body: n.body.clone(),
        timestamp: n.timestamp,
        deleted: n.deleted,
    }
}

/// Copies a bid list element by element.
pub fn dup_bids(v: &Vec<Bid>) -> (r: Vec<Bid>)
    ensures
        r@ == v@,
{
    let mut r: Vec<Bid> = Vec::new();
    let mut i: usize = 0;
    while i < v.len()
        invariant
            i <= v.len(),
            r@ =~= v@.subrange(0, i as int),
        decreases v.len() - i,
    {
        r.push(dup_bid(&v[i]));
        i += 1;
    }
    proof {
        assert(r@ =~= v@);
    }
    r
}

} // verus!
