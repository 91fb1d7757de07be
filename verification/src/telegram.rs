//! The delivery pipeline's bookkeeping. The surrounding program walks the
//! unsent records in the order `fetch_unsent_mails` hands them out, tries to
//! send each one's artifact to the destination chat, and reports one outcome
//! per record; this module decides what those outcomes mean: which records
//! are confirmed delivered, which single sends failed and stay unsent for
//! the next run, and which records point at a missing artifact — an
//! inconsistency that is surfaced by id, never silently skipped.

use vstd::prelude::*;

use crate::db::{marked_sent, MailsDB, StoreError};

verus! {

/// How the send of one unsent record went. `ArtifactMissing` means the
/// record is persisted but its PDF is gone from the staging directory.
#[derive(Clone, Copy, Debug)]
pub enum SendStatus {
    Sent,
    SendFailed,
    ArtifactMissing,
}

/// The outcome of one record's delivery attempt: its surrogate id, its
/// provider message id for attribution, and how the send went.
pub struct DeliveryOutcome {
    pub id: u64,
    pub message_id: String,
    pub status: SendStatus,
}

/// What one delivery run did: which records were confirmed sent, which
/// sends failed, and which records had no artifact to send. A non-empty
/// `missing_ids` makes the run fail loudly, after the confirmed sends were
/// still recorded.
pub struct DeliveryReport {
    pub sent_ids: Vec<u64>,
    pub failed_ids: Vec<u64>,
    pub missing_ids: Vec<String>,
}

/// The surrogate ids of the outcomes confirmed as sent, in delivery order.
pub open spec fn sent_ids_of(outs: Seq<DeliveryOutcome>) -> Seq<u64>
    decreases outs.len(),
{
    if outs.len() == 0 {
        Seq::empty()
    } else {
        let prev = sent_ids_of(outs.drop_last());
        if outs.last().status is Sent {
            prev.push(outs.last().id)
        } else {
            prev
        }
    }
}

/// The surrogate ids of the outcomes whose send failed, in delivery order.
pub open spec fn failed_ids_of(outs: Seq<DeliveryOutcome>) -> Seq<u64>
    decreases outs.len(),
{
    if outs.len() == 0 {
        Seq::empty()
    } else {
        let prev = failed_ids_of(outs.drop_last());
        if outs.last().status is SendFailed {
            prev.push(outs.last().id)
        } else {
            prev
        }
    }
}

/// The message ids of the outcomes whose artifact was missing, in delivery
/// order.
pub open spec fn missing_mids_of(outs: Seq<DeliveryOutcome>) -> Seq<Seq<char>>
    decreases outs.len(),
{
    if outs.len() == 0 {
        Seq::empty()
    } else {
        let prev = missing_mids_of(outs.drop_last());
        if outs.last().status is ArtifactMissing {
            prev.push(outs.last().message_id@)
        } else {
            prev
        }
    }
}

/// Records one delivery run in the store: exactly the records whose send
/// was confirmed are marked sent — a failed send or a missing artifact
/// leaves its record unsent for the next run — and every outcome is
/// accounted for in the report, missing artifacts by their message id.
/// The delivery flag of every record only ever goes from clear to set.
pub fn record_delivery(db: &mut MailsDB, outcomes: &Vec<DeliveryOutcome>) -> (r: DeliveryReport)
    ensures
        r.sent_ids@ == sent_ids_of(outcomes@),
        r.failed_ids@ == failed_ids_of(outcomes@),
        r.missing_ids.deep_view() == missing_mids_of(outcomes@),
        final(db).spec_next_id() == old(db).spec_next_id(),
        final(db)@.len() == old(db)@.len(),
        forall|i: int|
            0 <= i < old(db)@.len() ==> final(db)@[i] == (if sent_ids_of(outcomes@).contains(
                old(db)@[i].id,
            ) {
                marked_sent(old(db)@[i])
            } else {
                old(db)@[i]
            }),
        forall|i: int|
            0 <= i < old(db)@.len() && old(db)@[i].sent_on_telegram
                ==> final(db)@[i].sent_on_telegram,
{
    let n = outcomes.len();
    let mut sent_ids: Vec<u64> = Vec::new();
    let mut failed_ids: Vec<u64> = Vec::new();
    let mut missing_ids: Vec<String> = Vec::new();
    let mut i: usize = 0;
    proof {
        assert(outcomes@.take(0) =~= Seq::<DeliveryOutcome>::empty());
    }
    while i < n
        invariant
            n == outcomes@.len(),
            0 <= i <= n,
            sent_ids@ == sent_ids_of(outcomes@.take(i as int)),
            failed_ids@ == failed_ids_of(outcomes@.take(i as int)),
            missing_ids.deep_view() == missing_mids_of(outcomes@.take(i as int)),
        decreases n - i,
    {
        proof {
            assert(outcomes@.take(i + 1).drop_last() =~= outcomes@.take(i as int));
            assert(outcomes@.take(i + 1).last() == outcomes@[i as int]);
        }
        let ghost missing_prev = missing_ids.deep_view();
        match outcomes[i].status {
            SendStatus::Sent => {
                sent_ids.push(outcomes[i].id);
            },
            SendStatus::SendFailed => {
                failed_ids.push(outcomes[i].id);
            },
            SendStatus::ArtifactMissing => {
                missing_ids.push(outcomes[i].message_id.clone());
                proof {
                    assert(missing_ids.deep_view() =~= missing_prev.push(
                        outcomes@[i as int].message_id@,
                    ));
                }
            },
        }
        i += 1;
    }
    proof {
        assert(outcomes@.take(n as int) =~= outcomes@);
    }
    // marking in the in-memory store always succeeds; the Result shape of
    // the operation mirrors the durable store's interface
    let _ = db.update_mails_as_sent(&sent_ids);
    DeliveryReport { sent_ids, failed_ids, missing_ids }
}

} // verus!
