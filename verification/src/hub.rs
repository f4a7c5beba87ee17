//! The two ledgers' operations over the keyed store.
//!
//! [`SecureTenderHub`] owns the store and exposes one method per public
//! operation. Each method validates its preconditions, touches the store
//! through the composite keys of [`crate::store::StoreKey`], and either
//! commits its writes in full or returns an [`OpError`] with the state
//! exactly as it was. The contracts speak of the hub's abstract state
//! [`HubModel`]: four maps, one per record kind.

use vstd::pervasive::unreached;
use vstd::prelude::*;

use crate::records::Bid;
use crate::records::BidModel;
use crate::records::Note;
use crate::records::NoteModel;
use crate::records::OpError;
use crate::records::Tender;
use crate::records::TenderModel;
use crate::records::TenderStatus;
use crate::records::dup_bids;
use crate::records::dup_note;
use crate::records::dup_tender;
use crate::records::sentinel_note;
use crate::store::Store;
use crate::store::StoreKey;
use crate::store::StoreVal;

verus! {

/// The models of a list of bid records, in submission order.
pub open spec fn bids_view(s: Seq<Bid>) -> Seq<BidModel> {
    s.map(|i: int, b: Bid| b@)
}

/// Whether some bid in the list carries this bid id.
pub open spec fn has_bid_id(bs: Seq<BidModel>, id: u64) -> bool {
    exists|i: int| 0 <= i < bs.len() && (#[trigger] bs[i]).bid_id == id
}

/// The abstract state of the hub: every tender, every tender's bid list,
/// every owner's note counter, and every note, each under its identifier.
#[verifier::ext_equal]
pub struct HubModel {
    pub tenders: Map<u64, TenderModel>,
    pub bids: Map<u64, Seq<BidModel>>,
    pub counters: Map<u64, u64>,
    pub notes: Map<(u64, u64), NoteModel>,
}

impl HubModel {
    /// How many notes an owner has ever added. An owner never seen has
    /// count 0, indistinguishable from one who genuinely has zero notes.
    pub open spec fn count_of(self, owner: u64) -> u64 {
        if self.counters.contains_key(owner) {
            self.counters[owner]
        } else {
            0
        }
    }
}

/// The id `add_note` assigns next, given the owner's current count: one
/// more, saturating at the largest representable count.
pub open spec fn next_count(c: u64) -> u64 {
    if c == u64::MAX {
        u64::MAX
    } else {
        (c + 1) as u64
    }
}

/// The record `create_tender` writes: open, with no winning bid.
pub open spec fn fresh_tender(tender_id: u64, authority: u64, title: Seq<char>) -> TenderModel {
    TenderModel { tender_id, authority, title, status: TenderStatus::Open, winning_bid: None }
}

/// A tender after `award_tender` chose this winning bid.
pub open spec fn awarded(t: TenderModel, winning_bid_id: u64) -> TenderModel {
    TenderModel { status: TenderStatus::Awarded, winning_bid: Some(winning_bid_id), ..t }
}

/// A tender after `cancel_tender`.
pub open spec fn cancelled(t: TenderModel) -> TenderModel {
    TenderModel { status: TenderStatus::Cancelled, ..t }
}

spec fn tenders_of(c: Map<StoreKey, StoreVal>) -> Map<u64, TenderModel> {
    Map::new(
        |id: u64| c.contains_key(StoreKey::Tender(id)),
        |id: u64| c[StoreKey::Tender(id)]->Tender_0@,
    )
}

spec fn bid_lists_of(c: Map<StoreKey, StoreVal>) -> Map<u64, Seq<BidModel>> {
    Map::new(
        |id: u64| c.contains_key(StoreKey::TenderBids(id)),
        |id: u64| bids_view(c[StoreKey::TenderBids(id)]->Bids_0@),
    )
}

spec fn counters_of(c: Map<StoreKey, StoreVal>) -> Map<u64, u64> {
    Map::new(
        |o: u64| c.contains_key(StoreKey::NoteCount(o)),
        |o: u64| c[StoreKey::NoteCount(o)]->Count_0,
    )
}

spec fn notes_of(c: Map<StoreKey, StoreVal>) -> Map<(u64, u64), NoteModel> {
    Map::new(
        |p: (u64, u64)| c.contains_key(StoreKey::Note(p.0, p.1)),
        |p: (u64, u64)| c[StoreKey::Note(p.0, p.1)]->Note_0@,
    )
}

/// What a well-formed tender record satisfies: it is stored under its own
/// id, and it records a winning bid exactly while it is awarded.
spec fn tender_record_ok(id: u64, t: TenderModel) -> bool {
    &&& t.tender_id == id
    &&& (t.winning_bid is Some <==> t.status == TenderStatus::Awarded)
}

/// What a well-formed bid list satisfies: every bid points back at the
/// tender it was stored under, amounts are positive, and bid ids are
/// pairwise distinct.
spec fn bid_list_ok(id: u64, bs: Seq<BidModel>) -> bool {
    &&& forall|i: int|
        0 <= i < bs.len() ==> (#[trigger] bs[i]).tender_id == id && bs[i].amount > 0
    &&& forall|i: int, j: int|
        0 <= i < j < bs.len() ==> (#[trigger] bs[i]).bid_id != (#[trigger] bs[j]).bid_id
}

/// The storage schema invariant: every key holds a record of its own kind,
/// a tender and its bid list exist together, an awarded tender's winning
/// bid is in its list, and an owner's notes are exactly ids 1 through the
/// owner's counter.
spec fn store_inv(c: Map<StoreKey, StoreVal>) -> bool {
    &&& forall|id: u64| #[trigger]
        c.contains_key(StoreKey::Tender(id)) ==> c[StoreKey::Tender(id)] is Tender
            && tender_record_ok(id, c[StoreKey::Tender(id)]->Tender_0@)
    &&& forall|id: u64| #[trigger]
        c.contains_key(StoreKey::TenderBids(id)) ==> c[StoreKey::TenderBids(id)] is Bids
            && bid_list_ok(id, bids_view(c[StoreKey::TenderBids(id)]->Bids_0@))
    &&& forall|o: u64| #[trigger]
        c.contains_key(StoreKey::NoteCount(o)) ==> c[StoreKey::NoteCount(o)] is Count
            && c[StoreKey::NoteCount(o)]->Count_0 >= 1
    &&& forall|o: u64, i: u64| #[trigger]
        c.contains_key(StoreKey::Note(o, i)) ==> c[StoreKey::Note(o, i)] is Note
            && c[StoreKey::Note(o, i)]->Note_0@.id == i && i >= 1
    &&& forall|id: u64| #[trigger]
        c.contains_key(StoreKey::Tender(id)) ==> c.contains_key(StoreKey::TenderBids(id))
    &&& forall|id: u64| #[trigger]
        c.contains_key(StoreKey::TenderBids(id)) ==> c.contains_key(StoreKey::Tender(id))
    &&& forall|id: u64| #[trigger]
        c.contains_key(StoreKey::Tender(id)) && c[StoreKey::Tender(id)]->Tender_0@.status
            == TenderStatus::Awarded ==> has_bid_id(
            bids_view(c[StoreKey::TenderBids(id)]->Bids_0@),
            c[StoreKey::Tender(id)]->Tender_0@.winning_bid->Some_0,
        )
    &&& forall|o: u64, i: u64| #[trigger]
        c.contains_key(StoreKey::Note(o, i)) ==> c.contains_key(StoreKey::NoteCount(o)) && i
            <= c[StoreKey::NoteCount(o)]->Count_0
    &&& forall|o: u64, i: u64|
        c.contains_key(StoreKey::NoteCount(o)) && 1 <= i <= c[StoreKey::NoteCount(
            o,
        )]->Count_0 ==> #[trigger] c.contains_key(StoreKey::Note(o, i))
}

/// A scan over the stored bids finds an id exactly when the modelled list
/// has it.
proof fn lemma_scan_bid_id(bs0: Seq<Bid>, id: u64, found: bool)
    requires
        found <==> exists|j: int| 0 <= j < bs0.len() && (#[trigger] bs0[j]).bid_id == id,
    ensures
        found == has_bid_id(bids_view(bs0), id),
{
    if found {
        let j = choose|j: int| 0 <= j < bs0.len() && (#[trigger] bs0[j]).bid_id == id;
        assert(bids_view(bs0)[j] == bs0[j]@);
        assert((#[trigger] bids_view(bs0)[j]).bid_id == id);
    } else {
        if has_bid_id(bids_view(bs0), id) {
            let j = choose|j: int|
                0 <= j < bids_view(bs0).len() && (#[trigger] bids_view(bs0)[j]).bid_id == id;
            assert(bids_view(bs0)[j] == bs0[j]@);
            assert((#[trigger] bs0[j]).bid_id == id);
            assert(false);
        }
    }
}

/// Writing a tender record changes the tender map alone.
proof fn lemma_insert_tender(c: Map<StoreKey, StoreVal>, id: u64, v: StoreVal)
    requires
        v is Tender,
    ensures
        tenders_of(c.insert(StoreKey::Tender(id), v)) == tenders_of(c).insert(id, v->Tender_0@),
        bid_lists_of(c.insert(StoreKey::Tender(id), v)) == bid_lists_of(c),
        counters_of(c.insert(StoreKey::Tender(id), v)) == counters_of(c),
        notes_of(c.insert(StoreKey::Tender(id), v)) == notes_of(c),
{
    let c2 = c.insert(StoreKey::Tender(id), v);
    assert(tenders_of(c2) =~= tenders_of(c).insert(id, v->Tender_0@));
    assert(bid_lists_of(c2) =~~= bid_lists_of(c));
    assert(counters_of(c2) =~= counters_of(c));
    assert(notes_of(c2) =~= notes_of(c));
}

/// Writing a bid list changes the bid-list map alone.
proof fn lemma_insert_bids(c: Map<StoreKey, StoreVal>, id: u64, v: StoreVal)
    requires
        v is Bids,
    ensures
        tenders_of(c.insert(StoreKey::TenderBids(id), v)) == tenders_of(c),
        bid_lists_of(c.insert(StoreKey::TenderBids(id), v)) == bid_lists_of(c).insert(
            id,
            bids_view(v->Bids_0@),
        ),
        counters_of(c.insert(StoreKey::TenderBids(id), v)) == counters_of(c),
        notes_of(c.insert(StoreKey::TenderBids(id), v)) == notes_of(c),
{
    let c2 = c.insert(StoreKey::TenderBids(id), v);
    assert(tenders_of(c2) =~= tenders_of(c));
    assert(bid_lists_of(c2) =~~= bid_lists_of(c).insert(id, bids_view(v->Bids_0@)));
    assert(counters_of(c2) =~= counters_of(c));
    assert(notes_of(c2) =~= notes_of(c));
}

/// Writing a note counter changes the counter map alone.
proof fn lemma_insert_count(c: Map<StoreKey, StoreVal>, o: u64, v: StoreVal)
    requires
        v is Count,
    ensures
        tenders_of(c.insert(StoreKey::NoteCount(o), v)) == tenders_of(c),
        bid_lists_of(c.insert(StoreKey::NoteCount(o), v)) == bid_lists_of(c),
        counters_of(c.insert(StoreKey::NoteCount(o), v)) == counters_of(c).insert(o, v->Count_0),
        notes_of(c.insert(StoreKey::NoteCount(o), v)) == notes_of(c),
{
    let c2 = c.insert(StoreKey::NoteCount(o), v);
    assert(tenders_of(c2) =~= tenders_of(c));
    assert(bid_lists_of(c2) =~~= bid_lists_of(c));
    assert(counters_of(c2) =~= counters_of(c).insert(o, v->Count_0));
    assert(notes_of(c2) =~= notes_of(c));
}

/// Writing a note record changes the note map alone.
proof fn lemma_insert_note(c: Map<StoreKey, StoreVal>, o: u64, i: u64, v: StoreVal)
    requires
        v is Note,
    ensures
        tenders_of(c.insert(StoreKey::Note(o, i), v)) == tenders_of(c),
        bid_lists_of(c.insert(StoreKey::Note(o, i), v)) == bid_lists_of(c),
        counters_of(c.insert(StoreKey::Note(o, i), v)) == counters_of(c),
        notes_of(c.insert(StoreKey::Note(o, i), v)) == notes_of(c).insert((o, i), v->Note_0@),
{
    let c2 = c.insert(StoreKey::Note(o, i), v);
    assert(tenders_of(c2) =~= tenders_of(c));
    assert(bid_lists_of(c2) =~~= bid_lists_of(c));
    assert(counters_of(c2) =~= counters_of(c));
    assert(notes_of(c2) =~= notes_of(c).insert((o, i), v->Note_0@));
}

/// The hub: both ledgers' records, in one keyed store.
pub struct SecureTenderHub {
    store: Store,
}

impl View for SecureTenderHub {
    type V = HubModel;

    closed spec fn view(&self) -> HubModel {
        HubModel {
            tenders: tenders_of(self.store.contents()),
            bids: bid_lists_of(self.store.contents()),
            counters: counters_of(self.store.contents()),
            notes: notes_of(self.store.contents()),
        }
    }
}

impl SecureTenderHub {
    /// Well-formedness: the store's key table is sound and the storage
    /// schema invariant holds of its contents. Established by [`Self::new`]
    /// and preserved by every operation.
    pub closed spec fn wf(self) -> bool {
        &&& self.store.wf()
        &&& store_inv(self.store.contents())
    }

    /// A hub with no records at all.
    pub fn new() -> (h: SecureTenderHub)
        ensures
            h.wf(),
            h@.tenders == Map::<u64, TenderModel>::empty(),
            h@.bids == Map::<u64, Seq<BidModel>>::empty(),
            h@.counters == Map::<u64, u64>::empty(),
            h@.notes == Map::<(u64, u64), NoteModel>::empty(),
    {
        let h = SecureTenderHub { store: Store::new() };
        proof {
            assert(h@.tenders =~= Map::<u64, TenderModel>::empty());
            assert(h@.bids =~= Map::<u64, Seq<BidModel>>::empty());
            assert(h@.counters =~= Map::<u64, u64>::empty());
            assert(h@.notes =~= Map::<(u64, u64), NoteModel>::empty());
        }
        h
    }

    /// Creates a tender under a caller-supplied id, open and with an empty
    /// bid list. Fails with `KeyExists` when the id is already taken; the
    /// claimed authority is recorded unchecked.
    pub fn create_tender(&mut self, tender_id: u64, authority: u64, title: String) -> (r: Result<
        (),
        OpError,
    >)
        requires
            old(self).wf(),
        ensures
            final(self).wf(),
            old(self)@.tenders.contains_key(tender_id) ==> r == Err::<(), OpError>(
                OpError::KeyExists,
            ) && *final(self) == *old(self),
            !old(self)@.tenders.contains_key(tender_id) ==> r == Ok::<(), OpError>(()),
            !old(self)@.tenders.contains_key(tender_id) ==> final(self)@.tenders == old(
                self,
            )@.tenders.insert(tender_id, fresh_tender(tender_id, authority, title@)),
            !old(self)@.tenders.contains_key(tender_id) ==> final(self)@.bids == old(
                self,
            )@.bids.insert(tender_id, Seq::<BidModel>::empty()),
            final(self)@.counters == old(self)@.counters,
            final(self)@.notes == old(self)@.notes,
    {
        let t_key = StoreKey::Tender(tender_id);
        if self.store.has(t_key) {
            return Err(OpError::KeyExists);
        }
        let ghost c0 = self.store.contents();
        let tender = Tender {
            tender_id,
            authority,
            title,
            status: TenderStatus::Open,
            winning_bid: None,
        };
        let ghost tv = tender@;
        self.store.set(t_key, StoreVal::Tender(tender));
        let ghost c1 = self.store.contents();
        let empty_bids: Vec<Bid> = Vec::new();
        self.store.set(StoreKey::TenderBids(tender_id), StoreVal::Bids(empty_bids));
        let ghost c2 = self.store.contents();
        proof {
            lemma_insert_tender(c0, tender_id, StoreVal::Tender(tender));
            lemma_insert_bids(c1, tender_id, StoreVal::Bids(empty_bids));
            assert(tv == fresh_tender(tender_id, authority, tv.title));
            assert(bids_view(empty_bids@) =~= Seq::<BidModel>::empty());
            assert(final(self)@.bids == old(self)@.bids.insert(tender_id, Seq::<BidModel>::empty()));
            assert forall|id: u64| #[trigger]
                c2.contains_key(StoreKey::Tender(id)) implies c2[StoreKey::Tender(id)] is Tender
                && tender_record_ok(id, c2[StoreKey::Tender(id)]->Tender_0@) by {
                if id != tender_id {
                    assert(c0.contains_key(StoreKey::Tender(id)));
                }
            }
            assert forall|id: u64| #[trigger]
                c2.contains_key(StoreKey::TenderBids(id)) implies c2[StoreKey::TenderBids(
                id,
            )] is Bids && bid_list_ok(id, bids_view(c2[StoreKey::TenderBids(id)]->Bids_0@)) by {
                if id != tender_id {
                    assert(c0.contains_key(StoreKey::TenderBids(id)));
                }
            }
            assert forall|id: u64| #[trigger]
                c2.contains_key(StoreKey::Tender(id)) && c2[StoreKey::Tender(id)]->Tender_0@.status
                == TenderStatus::Awarded implies has_bid_id(
                bids_view(c2[StoreKey::TenderBids(id)]->Bids_0@),
                c2[StoreKey::Tender(id)]->Tender_0@.winning_bid->Some_0,
            ) by {
                if id != tender_id {
                    assert(c0.contains_key(StoreKey::Tender(id)));
                }
            }
            assert(store_inv(c2));
        }
        Ok(())
    }

    /// Submits a bid against an open tender. The amount must be positive,
    /// the tender must exist and still be open, and the bid id must not
    /// collide with one already in the tender's list; the submitting vendor
    /// identity is recorded unchecked.
    pub fn submit_bid(
        &mut self,
        bid_id: u64,
        tender_id: u64,
        vendor: u64,
        amount: i128,
        details: String,
    ) -> (r: Result<(), OpError>)
        requires
            old(self).wf(),
        ensures
            final(self).wf(),
            amount <= 0 ==> r == Err::<(), OpError>(OpError::InvalidArgument) && *final(self)
                == *old(self),
            amount > 0 && !old(self)@.tenders.contains_key(tender_id) ==> r == Err::<(), OpError>(
                OpError::NotFound,
            ) && *final(self) == *old(self),
            amount > 0 && old(self)@.tenders.contains_key(tender_id) && old(
                self,
            )@.tenders[tender_id].status != TenderStatus::Open ==> r == Err::<(), OpError>(
                OpError::InvalidState,
            ) && *final(self) == *old(self),
            amount > 0 && old(self)@.tenders.contains_key(tender_id) && old(
                self,
            )@.tenders[tender_id].status == TenderStatus::Open && has_bid_id(
                old(self)@.bids[tender_id],
                bid_id,
            ) ==> r == Err::<(), OpError>(OpError::KeyExists) && *final(self) == *old(self),
            amount > 0 && old(self)@.tenders.contains_key(tender_id) && old(
                self,
            )@.tenders[tender_id].status == TenderStatus::Open && !has_bid_id(
                old(self)@.bids[tender_id],
                bid_id,
            ) ==> r == Ok::<(), OpError>(()) && final(self)@.bids == old(self)@.bids.insert(
                tender_id,
                old(self)@.bids[tender_id].push(
                    (BidModel { bid_id, tender_id, vendor, amount, details: details@ }),
                ),
            ),
            final(self)@.tenders == old(self)@.tenders,
            final(self)@.counters == old(self)@.counters,
            final(self)@.notes == old(self)@.notes,
    {
        if amount <= 0 {
            return Err(OpError::InvalidArgument);
        }
        let ghost c0 = self.store.contents();
        let status = match self.store.get(StoreKey::Tender(tender_id)) {
            None => {
                return Err(OpError::NotFound);
            },
            Some(v) => match v {
                StoreVal::Tender(t) => t.status,
                _ => unreached(),
            },
        };
        match status {
            TenderStatus::Open => {},
            _ => {
                return Err(OpError::InvalidState);
            },
        }
        let b_key = StoreKey::TenderBids(tender_id);
        let bids_ref: &Vec<Bid> = match self.store.get(b_key) {
            Some(v) => match v {
                StoreVal::Bids(bs) => bs,
                _ => unreached(),
            },
            None => unreached(),
        };
        let ghost bs0 = bids_ref@;
        let mut exists_dup = false;
        let mut i: usize = 0;
        while i < bids_ref.len()
            invariant
                i <= bids_ref@.len(),
                bids_ref@ == bs0,
                exists_dup <==> exists|j: int| 0 <= j < i && (#[trigger] bs0[j]).bid_id == bid_id,
            decreases bids_ref@.len() - i,
        {
            if bids_ref[i].bid_id == bid_id {
                exists_dup = true;
            }
            i += 1;
        }
        proof {
            assert(old(self)@.bids[tender_id] == bids_view(bs0));
            lemma_scan_bid_id(bs0, bid_id, exists_dup);
        }
        if exists_dup {
            return Err(OpError::KeyExists);
        }
        let mut new_bids = dup_bids(bids_ref);
        let bid = Bid { bid_id, tender_id, vendor, amount, details };
        new_bids.push(bid);
        self.store.set(b_key, StoreVal::Bids(new_bids));
        let ghost c2 = self.store.contents();
        proof {
            lemma_insert_bids(c0, tender_id, StoreVal::Bids(new_bids));
            assert(bids_view(new_bids@) =~= bids_view(bs0).push(bid@));
            assert forall|id: u64| #[trigger]
                c2.contains_key(StoreKey::TenderBids(id)) implies c2[StoreKey::TenderBids(
                id,
            )] is Bids && bid_list_ok(id, bids_view(c2[StoreKey::TenderBids(id)]->Bids_0@)) by {
                assert(c0.contains_key(StoreKey::TenderBids(id)));
                if id == tender_id {
                    let nb = bids_view(c2[StoreKey::TenderBids(id)]->Bids_0@);
                    let ob = bids_view(bs0);
                    assert(nb =~= ob.push(bid@));
                    assert(bid_list_ok(id, ob));
                    assert forall|a: int, b: int| 0 <= a < b < nb.len() implies (
                    #[trigger] nb[a]).bid_id != (#[trigger] nb[b]).bid_id by {
                        if b == nb.len() - 1 {
                            assert(!has_bid_id(ob, bid_id));
                            assert(nb[a] == ob[a]);
                        }
                    }
                }
            }
            assert forall|id: u64| #[trigger]
                c2.contains_key(StoreKey::Tender(id)) && c2[StoreKey::Tender(id)]->Tender_0@.status
                == TenderStatus::Awarded implies has_bid_id(
                bids_view(c2[StoreKey::TenderBids(id)]->Bids_0@),
                c2[StoreKey::Tender(id)]->Tender_0@.winning_bid->Some_0,
            ) by {
                assert(c0.contains_key(StoreKey::Tender(id)));
                if id == tender_id {
                    assert(c0[StoreKey::Tender(id)]->Tender_0@.status == TenderStatus::Open);
                }
            }
            assert(store_inv(c2));
        }
        Ok(())
    }

    /// Awards an open tender to one of its bids. Only the tender's
    /// authority may do so, only while the tender is open, and only for a
    /// bid that is in the tender's list. A terminal transition: afterwards
    /// the tender is `Awarded` and records the winning bid id.
    pub fn award_tender(&mut self, tender_id: u64, caller: u64, winning_bid_id: u64) -> (r: Result<
        (),
        OpError,
    >)
        requires
            old(self).wf(),
        ensures
            final(self).wf(),
            !old(self)@.tenders.contains_key(tender_id) ==> r == Err::<(), OpError>(
                OpError::NotFound,
            ) && *final(self) == *old(self),
            old(self)@.tenders.contains_key(tender_id) && caller != old(
                self,
            )@.tenders[tender_id].authority ==> r == Err::<(), OpError>(OpError::Unauthorized)
                && *final(self) == *old(self),
            old(self)@.tenders.contains_key(tender_id) && caller == old(
                self,
            )@.tenders[tender_id].authority && old(self)@.tenders[tender_id].status
                != TenderStatus::Open ==> r == Err::<(), OpError>(OpError::InvalidState) && *final(self) == *old(self),
            old(self)@.tenders.contains_key(tender_id) && caller == old(
                self,
            )@.tenders[tender_id].authority && old(self)@.tenders[tender_id].status
                == TenderStatus::Open && !has_bid_id(old(self)@.bids[tender_id], winning_bid_id)
                ==> r == Err::<(), OpError>(OpError::NotFound) && *final(self) == *old(self),
            old(self)@.tenders.contains_key(tender_id) && caller == old(
                self,
            )@.tenders[tender_id].authority && old(self)@.tenders[tender_id].status
                == TenderStatus::Open && has_bid_id(old(self)@.bids[tender_id], winning_bid_id)
                ==> r == Ok::<(), OpError>(()) && final(self)@.tenders == old(
                self,
            )@.tenders.insert(tender_id, awarded(old(self)@.tenders[tender_id], winning_bid_id)),
            final(self)@.bids == old(self)@.bids,
            final(self)@.counters == old(self)@.counters,
            final(self)@.notes == old(self)@.notes,
    {
        let t_key = StoreKey::Tender(tender_id);
        let ghost c0 = self.store.contents();
        let tender_ref: &Tender = match self.store.get(t_key) {
            None => {
                return Err(OpError::NotFound);
            },
            Some(v) => match v {
                StoreVal::Tender(t) => t,
                _ => unreached(),
            },
        };
        if caller != tender_ref.authority {
            return Err(OpError::Unauthorized);
        }
        match tender_ref.status {
            TenderStatus::Open => {},
            _ => {
                return Err(OpError::InvalidState);
            },
        }
        let new_tender = Tender {
            tender_id: tender_ref.tender_id,
            authority: tender_ref.authority,
            title: tender_ref.title.clone(),
            status: TenderStatus::Awarded,
            winning_bid: Some(winning_bid_id),
        };
        let bids_ref: &Vec<Bid> = match self.store.get(StoreKey::TenderBids(tender_id)) {
            Some(v) => match v {
                StoreVal::Bids(bs) => bs,
                _ => unreached(),
            },
            None => unreached(),
        };
        let ghost bs0 = bids_ref@;
        let mut found = false;
        let mut i: usize = 0;
        while i < bids_ref.len()
            invariant
                i <= bids_ref@.len(),
                bids_ref@ == bs0,
                found <==> exists|j: int|
                    0 <= j < i && (#[trigger] bs0[j]).bid_id == winning_bid_id,
            decreases bids_ref@.len() - i,
        {
            if bids_ref[i].bid_id == winning_bid_id {
                found = true;
            }
            i += 1;
        }
        proof {
            assert(old(self)@.bids[tender_id] == bids_view(bs0));
            lemma_scan_bid_id(bs0, winning_bid_id, found);
        }
        if !found {
            return Err(OpError::NotFound);
        }
        self.store.set(t_key, StoreVal::Tender(new_tender));
        let ghost c2 = self.store.contents();
        proof {
            lemma_insert_tender(c0, tender_id, StoreVal::Tender(new_tender));
            assert(new_tender@ == awarded(old(self)@.tenders[tender_id], winning_bid_id));
            assert forall|id: u64| #[trigger]
                c2.contains_key(StoreKey::Tender(id)) implies c2[StoreKey::Tender(id)] is Tender
                && tender_record_ok(id, c2[StoreKey::Tender(id)]->Tender_0@) by {
                assert(c0.contains_key(StoreKey::Tender(id)));
            }
            assert forall|id: u64| #[trigger]
                c2.contains_key(StoreKey::Tender(id)) && c2[StoreKey::Tender(id)]->Tender_0@.status
                == TenderStatus::Awarded implies has_bid_id(
                bids_view(c2[StoreKey::TenderBids(id)]->Bids_0@),
                c2[StoreKey::Tender(id)]->Tender_0@.winning_bid->Some_0,
            ) by {
                assert(c0.contains_key(StoreKey::Tender(id)));
                if id != tender_id {
                    assert(c2[StoreKey::Tender(id)] == c0[StoreKey::Tender(id)]);
                }
            }
            assert(store_inv(c2));
        }
        Ok(())
    }

    /// Cancels an open tender. Only the tender's authority may do so, and
    /// only while the tender is open. A terminal transition: afterwards the
    /// tender is `Cancelled` and still records no winning bid.
    pub fn cancel_tender(&mut self, tender_id: u64, caller: u64) -> (r: Result<(), OpError>)
        requires
            old(self).wf(),
        ensures
            final(self).wf(),
            !old(self)@.tenders.contains_key(tender_id) ==> r == Err::<(), OpError>(
                OpError::NotFound,
            ) && *final(self) == *old(self),
            old(self)@.tenders.contains_key(tender_id) && caller != old(
                self,
            )@.tenders[tender_id].authority ==> r == Err::<(), OpError>(OpError::Unauthorized)
                && *final(self) == *old(self),
            old(self)@.tenders.contains_key(tender_id) && caller == old(
                self,
            )@.tenders[tender_id].authority && old(self)@.tenders[tender_id].status
                != TenderStatus::Open ==> r == Err::<(), OpError>(OpError::InvalidState) && *final(self) == *old(self),
            old(self)@.tenders.contains_key(tender_id) && caller == old(
                self,
            )@.tenders[tender_id].authority && old(self)@.tenders[tender_id].status
                == TenderStatus::Open ==> r == Ok::<(), OpError>(()) && final(self)@.tenders == old(
                self,
            )@.tenders.insert(tender_id, cancelled(old(self)@.tenders[tender_id])),
            final(self)@.bids == old(self)@.bids,
            final(self)@.counters == old(self)@.counters,
            final(self)@.notes == old(self)@.notes,
    {
        let t_key = StoreKey::Tender(tender_id);
        let ghost c0 = self.store.contents();
        let tender_ref: &Tender = match self.store.get(t_key) {
            None => {
                return Err(OpError::NotFound);
            },
            Some(v) => match v {
                StoreVal::Tender(t) => t,
                _ => unreached(),
            },
        };
        if caller != tender_ref.authority {
            return Err(OpError::Unauthorized);
        }
        match tender_ref.status {
            TenderStatus::Open => {},
            _ => {
                return Err(OpError::InvalidState);
            },
        }
        let new_tender = Tender {
            tender_id: tender_ref.tender_id,
            authority: tender_ref.authority,
            title: tender_ref.title.clone(),
            status: TenderStatus::Cancelled,
            winning_bid: tender_ref.winning_bid,
        };
        self.store.set(t_key, StoreVal::Tender(new_tender));
        let ghost c2 = self.store.contents();
        proof {
            lemma_insert_tender(c0, tender_id, StoreVal::Tender(new_tender));
            assert(new_tender@ == cancelled(old(self)@.tenders[tender_id]));
            assert forall|id: u64| #[trigger]
                c2.contains_key(StoreKey::Tender(id)) implies c2[StoreKey::Tender(id)] is Tender
                && tender_record_ok(id, c2[StoreKey::Tender(id)]->Tender_0@) by {
                assert(c0.contains_key(StoreKey::Tender(id)));
            }
            assert forall|id: u64| #[trigger]
                c2.contains_key(StoreKey::Tender(id)) && c2[StoreKey::Tender(id)]->Tender_0@.status
                == TenderStatus::Awarded implies has_bid_id(
                bids_view(c2[StoreKey::TenderBids(id)]->Bids_0@),
                c2[StoreKey::Tender(id)]->Tender_0@.winning_bid->Some_0,
            ) by {
                assert(c0.contains_key(StoreKey::Tender(id)));
                if id != tender_id {
                    assert(c2[StoreKey::Tender(id)] == c0[StoreKey::Tender(id)]);
                }
            }
            assert(store_inv(c2));
        }
        Ok(())
    }

    /// Appends a note to the caller's journal and returns its id: the
    /// caller's counter plus one, saturating at the largest representable
    /// count, so ids start at 1 and are never reused. `authorized` is the
    /// host's verdict on the invocation; without it nothing changes. `now`
    /// is the logical timestamp the host read for this transaction.
    pub fn add_note(
        &mut self,
        caller: u64,
        authorized: bool,
        now: u64,
        title: String,
        body: String,
    ) -> (r: Result<u64, OpError>)
        requires
            old(self).wf(),
        ensures
            final(self).wf(),
            !authorized ==> r == Err::<u64, OpError>(OpError::Unauthorized) && *final(self) == *old(
                self,
            ),
            authorized ==> r == Ok::<u64, OpError>(next_count(old(self)@.count_of(caller))),
            authorized ==> final(self)@.counters == old(self)@.counters.insert(
                caller,
                next_count(old(self)@.count_of(caller)),
            ),
            authorized ==> final(self)@.notes == old(self)@.notes.insert(
                (caller, next_count(old(self)@.count_of(caller))),
                (NoteModel {
                    id: next_count(old(self)@.count_of(caller)),
                    title: title@,
                    body: body@,
                    timestamp: now,
                    deleted: false,
                }),
            ),
            final(self)@.tenders == old(self)@.tenders,
            final(self)@.bids == old(self)@.bids,
    {
        if !authorized {
            return Err(OpError::Unauthorized);
        }
        let ghost c0 = self.store.contents();
        let count: u64 = match self.store.get(StoreKey::NoteCount(caller)) {
            None => 0,
            Some(v) => match v {
                StoreVal::Count(c) => *c,
                _ => unreached(),
            },
        };
        proof {
            assert(count == old(self)@.count_of(caller));
        }
        let new_count: u64 = if count == u64::MAX {
            u64::MAX
        } else {
            count + 1
        };
        let note = Note { id: new_count, title, body, timestamp: now, deleted: false };
        self.store.set(StoreKey::Note(caller, new_count), StoreVal::Note(note));
        let ghost c1 = self.store.contents();
        self.store.set(StoreKey::NoteCount(caller), StoreVal::Count(new_count));
        let ghost c2 = self.store.contents();
        proof {
            lemma_insert_note(c0, caller, new_count, StoreVal::Note(note));
            lemma_insert_count(c1, caller, StoreVal::Count(new_count));
            assert forall|o: u64, i: u64| #[trigger]
                c2.contains_key(StoreKey::Note(o, i)) implies c2.contains_key(
                StoreKey::NoteCount(o),
            ) && i <= c2[StoreKey::NoteCount(o)]->Count_0 by {
                if o == caller {
                    if i != new_count {
                        assert(c0.contains_key(StoreKey::Note(o, i)));
                        assert(i <= count);
                    }
                } else {
                    assert(c0.contains_key(StoreKey::Note(o, i)));
                }
            }
            assert forall|o: u64, i: u64|
                c2.contains_key(StoreKey::NoteCount(o)) && 1 <= i <= c2[StoreKey::NoteCount(
                    o,
                )]->Count_0 implies #[trigger] c2.contains_key(StoreKey::Note(o, i)) by {
                if o == caller {
                    if i != new_count {
                        assert(i <= count);
                        assert(c0.contains_key(StoreKey::NoteCount(o)));
                        assert(c0.contains_key(StoreKey::Note(o, i)));
                    }
                } else {
                    assert(c0.contains_key(StoreKey::NoteCount(o)));
                    assert(c0.contains_key(StoreKey::Note(o, i)));
                }
            }
            assert forall|o: u64, i: u64| #[trigger]
                c2.contains_key(StoreKey::Note(o, i)) implies c2[StoreKey::Note(o, i)] is Note
                && c2[StoreKey::Note(o, i)]->Note_0@.id == i && i >= 1 by {
                if o != caller || i != new_count {
                    assert(c0.contains_key(StoreKey::Note(o, i)));
                }
            }
            assert(store_inv(c2));
        }
        Ok(new_count)
    }

    /// Reads a note. No authorization, no side effect. A removed note still
    /// resolves: it carries the sentinel values, not the original ones.
    pub fn view_note(&self, owner: u64, id: u64) -> (r: Result<Note, OpError>)
        requires
            self.wf(),
        ensures
            self@.notes.contains_key((owner, id)) ==> (r matches Ok(n) && n@ == self@.notes[(
                owner,
                id,
            )]),
            !self@.notes.contains_key((owner, id)) ==> r == Err::<Note, OpError>(OpError::NotFound),
    {
        match self.store.get(StoreKey::Note(owner, id)) {
            None => Err(OpError::NotFound),
            Some(v) => match v {
                StoreVal::Note(n) => Ok(dup_note(n)),
                _ => unreached(),
            },
        }
    }

    /// How many notes an owner has ever added, soft-deleted ones included;
    /// 0 for an owner never seen.
    pub fn notes_count(&self, owner: u64) -> (r: u64)
        requires
            self.wf(),
        ensures
            r == self@.count_of(owner),
    {
        match self.store.get(StoreKey::NoteCount(owner)) {
            None => 0,
            Some(v) => match v {
                StoreVal::Count(c) => *c,
                _ => unreached(),
            },
        }
    }

    /// Soft-deletes one of the caller's own notes: the record is overwritten
    /// with the deletion sentinel, not erased, and the counter is left
    /// alone. Because the key is always the caller's, nobody can remove
    /// another owner's note. `authorized` and `now` are as in `add_note`.
    pub fn remove_note(&mut self, caller: u64, authorized: bool, now: u64, id: u64) -> (r: Result<
        (),
        OpError,
    >)
        requires
            old(self).wf(),
        ensures
            final(self).wf(),
            !authorized ==> r == Err::<(), OpError>(OpError::Unauthorized) && *final(self) == *old(
                self,
            ),
            authorized && !old(self)@.notes.contains_key((caller, id)) ==> r == Err::<(), OpError>(
                OpError::NotFound,
            ) && *final(self) == *old(self),
            authorized && old(self)@.notes.contains_key((caller, id)) ==> r == Ok::<(), OpError>(())
                && final(self)@.notes == old(self)@.notes.insert(
                (caller, id),
                sentinel_note(id, now),
            ),
            final(self)@.tenders == old(self)@.tenders,
            final(self)@.bids == old(self)@.bids,
            final(self)@.counters == old(self)@.counters,
    {
        if !authorized {
            return Err(OpError::Unauthorized);
        }
        let n_key = StoreKey::Note(caller, id);
        if !self.store.has(n_key) {
            return Err(OpError::NotFound);
        }
        let ghost c0 = self.store.contents();
        let tombstone = Note {
            id,
            title: "DELETED".to_owned(),
            body: String::new(),
            timestamp: now,
            deleted: true,
        };
        self.store.set(n_key, StoreVal::Note(tombstone));
        let ghost c2 = self.store.contents();
        proof {
            lemma_insert_note(c0, caller, id, StoreVal::Note(tombstone));
            assert(tombstone@ == sentinel_note(id, now));
            assert forall|o: u64, i: u64| #[trigger]
                c2.contains_key(StoreKey::Note(o, i)) implies c2[StoreKey::Note(o, i)] is Note
                && c2[StoreKey::Note(o, i)]->Note_0@.id == i && i >= 1 by {
                assert(c0.contains_key(StoreKey::Note(o, i)));
            }
            assert forall|o: u64, i: u64| #[trigger]
                c2.contains_key(StoreKey::Note(o, i)) implies c2.contains_key(
                StoreKey::NoteCount(o),
            ) && i <= c2[StoreKey::NoteCount(o)]->Count_0 by {
                assert(c0.contains_key(StoreKey::Note(o, i)));
            }
            assert(store_inv(c2));
        }
        Ok(())
    }

    /// Reads a tender. No authorization, no side effect.
    pub fn get_tender(&self, tender_id: u64) -> (r: Option<Tender>)
        requires
            self.wf(),
        ensures
            match r {
                Some(t) => self@.tenders.contains_key(tender_id) && t@ == self@.tenders[tender_id],
                None => !self@.tenders.contains_key(tender_id),
            },
    {
        match self.store.get(StoreKey::Tender(tender_id)) {
            None => None,
            Some(v) => match v {
                StoreVal::Tender(t) => Some(dup_tender(t)),
                _ => unreached(),
            },
        }
    }

    /// Reads a tender's bid list, in submission order. No authorization, no
    /// side effect.
    pub fn get_bids(&self, tender_id: u64) -> (r: Option<Vec<Bid>>)
        requires
            self.wf(),
        ensures
            match r {
                Some(bs) => self@.bids.contains_key(tender_id) && bids_view(bs@)
                    == self@.bids[tender_id],
                None => !self@.bids.contains_key(tender_id),
            },
    {
        match self.store.get(StoreKey::TenderBids(tender_id)) {
            None => None,
            Some(v) => match v {
                StoreVal::Bids(bs) => Some(dup_bids(bs)),
                _ => unreached(),
            },
        }
    }
}

/// Law: a tender records a winning bid exactly while it is awarded, at
/// every observable point.
pub proof fn lemma_winning_bid_iff_awarded(h: SecureTenderHub, tender_id: u64)
    requires
        h.wf(),
        h@.tenders.contains_key(tender_id),
    ensures
        (h@.tenders[tender_id].winning_bid is Some) <==> h@.tenders[tender_id].status
            == TenderStatus::Awarded,
{
    let c = h.store.contents();
    assert(c.contains_key(StoreKey::Tender(tender_id)));
    assert(tender_record_ok(tender_id, c[StoreKey::Tender(tender_id)]->Tender_0@));
}

/// Law: an awarded tender's winning bid id is the id of some bid in that
/// tender's own list.
pub proof fn lemma_winning_bid_listed(h: SecureTenderHub, tender_id: u64)
    requires
        h.wf(),
        h@.tenders.contains_key(tender_id),
        h@.tenders[tender_id].status == TenderStatus::Awarded,
    ensures
        h@.bids.contains_key(tender_id),
        has_bid_id(h@.bids[tender_id], h@.tenders[tender_id].winning_bid->Some_0),
{
    let c = h.store.contents();
    assert(c.contains_key(StoreKey::Tender(tender_id)));
    assert(c.contains_key(StoreKey::TenderBids(tender_id)));
}

/// Law: a tender exists exactly when its bid list does; each is stored
/// under the tender's own id.
pub proof fn lemma_tender_has_bid_list(h: SecureTenderHub, tender_id: u64)
    requires
        h.wf(),
    ensures
        h@.tenders.contains_key(tender_id) <==> h@.bids.contains_key(tender_id),
        h@.tenders.contains_key(tender_id) ==> h@.tenders[tender_id].tender_id == tender_id,
{
    let c = h.store.contents();
    if c.contains_key(StoreKey::Tender(tender_id)) {
        assert(tender_record_ok(tender_id, c[StoreKey::Tender(tender_id)]->Tender_0@));
    }
}

/// Law: within one tender's list, bid ids are pairwise distinct, every bid
/// points back at that tender, and every amount is positive.
pub proof fn lemma_bid_list_sound(h: SecureTenderHub, tender_id: u64)
    requires
        h.wf(),
        h@.bids.contains_key(tender_id),
    ensures
        forall|i: int, j: int|
            0 <= i < j < h@.bids[tender_id].len() ==> (#[trigger] h@.bids[tender_id][i]).bid_id != (
            #[trigger] h@.bids[tender_id][j]).bid_id,
        forall|i: int|
            0 <= i < h@.bids[tender_id].len() ==> (#[trigger] h@.bids[tender_id][i]).tender_id
                == tender_id && h@.bids[tender_id][i].amount > 0,
{
    let c = h.store.contents();
    assert(c.contains_key(StoreKey::TenderBids(tender_id)));
    assert(bid_list_ok(tender_id, bids_view(c[StoreKey::TenderBids(tender_id)]->Bids_0@)));
}

/// Law: an owner's notes are exactly those with ids 1 through the owner's
/// count — no gaps, none beyond the counter — and each note records the id
/// it is stored under.
pub proof fn lemma_note_ids_contiguous(h: SecureTenderHub, owner: u64)
    requires
        h.wf(),
    ensures
        forall|id: u64|
            #[trigger] h@.notes.contains_key((owner, id)) <==> 1 <= id <= h@.count_of(owner),
        forall|id: u64| #[trigger]
            h@.notes.contains_key((owner, id)) ==> h@.notes[(owner, id)].id == id,
{
    let c = h.store.contents();
    assert forall|id: u64| #[trigger]
        h@.notes.contains_key((owner, id)) implies 1 <= id <= h@.count_of(owner) by {
        assert(c.contains_key(StoreKey::Note(owner, id)));
        assert(c.contains_key(StoreKey::NoteCount(owner)));
        assert(h@.counters.contains_key(owner));
    }
    assert forall|id: u64| 1 <= id <= h@.count_of(owner) implies #[trigger]
        h@.notes.contains_key((owner, id)) by {
        assert(h@.counters.contains_key(owner));
        assert(c.contains_key(StoreKey::NoteCount(owner)));
        assert(c.contains_key(StoreKey::Note(owner, id)));
    }
}

} // verus!
