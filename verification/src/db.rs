//! The persistent mail store, modelled as a verified in-memory table of
//! records. The surrounding program loads the durable rows into a `MailsDB`
//! at startup and mirrors every mutation made here back to durable storage;
//! all decisions about the records are made by the verified operations of
//! this module.

use vstd::multiset::Multiset;
use vstd::prelude::*;

verus! {

broadcast use vstd::seq_lib::group_to_multiset_ensures;

/// One persisted mail record. `timestamp` and `created_at` carry the
/// provider's epoch-milliseconds; `id` is a surrogate key assigned by the
/// store on insert; `message_id` is the provider's identifier and the sole
/// dedup key.
pub struct Mail {
    pub id: u64,
    pub message_id: String,
    pub timestamp: u64,
    pub from: String,
    pub subject: String,
    pub sent_on_telegram: bool,
    pub created_at: u64,
}

/// The caller-supplied part of a record about to be inserted; the store
/// assigns `id`, `created_at` and the delivery flag itself.
pub struct NewMail {
    pub from: String,
    pub message_id: String,
    pub timestamp: u64,
    pub subject: String,
}

/// Ways a store operation can refuse to proceed. Inserting a message id that
/// is already recorded would break the dedup invariant, so it is rejected
/// rather than stored twice.
#[derive(Debug)]
pub enum StoreError {
    DuplicateMessageId(String),
    DuplicateId(u64),
    IdSpaceExhausted,
}

/// `m` with the delivery-confirmation flag set.
pub open spec fn marked_sent(m: Mail) -> Mail {
    Mail { sent_on_telegram: true, ..m }
}

/// Some record in `records` carries the provider message id `mid`.
pub open spec fn contains_message_id(records: Seq<Mail>, mid: Seq<char>) -> bool {
    exists|i: int| 0 <= i < records.len() && records[i].message_id@ == mid
}

/// The surrogate ids of `records` are pairwise distinct.
pub open spec fn ids_unique(records: Seq<Mail>) -> bool {
    forall|i: int, j: int| 0 <= i < j < records.len() ==> records[i].id != records[j].id
}

/// The provider message ids of `records` are pairwise distinct.
pub open spec fn mids_unique(records: Seq<Mail>) -> bool {
    forall|i: int, j: int|
        0 <= i < j < records.len() ==> records[i].message_id@ != records[j].message_id@
}

/// `s` is ordered by ascending received timestamp.
pub open spec fn sorted_by_timestamp(s: Seq<Mail>) -> bool {
    forall|i: int, j: int| 0 <= i <= j < s.len() ==> s[i].timestamp <= s[j].timestamp
}

/// The subsequence of `s` whose delivery flag is still clear, in store order.
pub open spec fn unsent_of(s: Seq<Mail>) -> Seq<Mail>
    decreases s.len(),
{
    if s.len() == 0 {
        Seq::empty()
    } else if s.last().sent_on_telegram {
        unsent_of(s.drop_last())
    } else {
        unsent_of(s.drop_last()).push(s.last())
    }
}

/// The subsequence of `records` whose message id occurs in `mids`, in store
/// order.
pub open spec fn matching_of(records: Seq<Mail>, mids: Seq<Seq<char>>) -> Seq<Mail>
    decreases records.len(),
{
    if records.len() == 0 {
        Seq::empty()
    } else if mids.contains(records.last().message_id@) {
        matching_of(records.drop_last(), mids).push(records.last())
    } else {
        matching_of(records.drop_last(), mids)
    }
}

proof fn lemma_unsent_of_membership(s: Seq<Mail>)
    ensures
        forall|x: Mail| #[trigger]
            unsent_of(s).contains(x) <==> (s.contains(x) && !x.sent_on_telegram),
    decreases s.len(),
{
    if s.len() > 0 {
        let dl = s.drop_last();
        lemma_unsent_of_membership(dl);
        assert forall|x: Mail| #[trigger] unsent_of(s).contains(x) implies (s.contains(x)
            && !x.sent_on_telegram) by {
            if s.last().sent_on_telegram {
                assert(unsent_of(s) == unsent_of(dl));
                assert(unsent_of(dl).contains(x));
                let i = choose|i: int| 0 <= i < dl.len() && dl[i] == x;
                assert(s[i] == x);
            } else {
                let i = choose|i: int| 0 <= i < unsent_of(s).len() && unsent_of(s)[i] == x;
                if i < unsent_of(s).len() - 1 {
                    assert(unsent_of(dl)[i] == x);
                    assert(unsent_of(dl).contains(x));
                    let j = choose|j: int| 0 <= j < dl.len() && dl[j] == x;
                    assert(s[j] == x);
                } else {
                    assert(x == s.last());
                    assert(s[s.len() - 1] == x);
                }
            }
        }
        assert forall|x: Mail| s.contains(x) && !x.sent_on_telegram implies #[trigger] unsent_of(
            s,
        ).contains(x) by {
            let i = choose|i: int| 0 <= i < s.len() && s[i] == x;
            if i == s.len() - 1 {
                assert(x == s.last());
                assert(!s.last().sent_on_telegram);
                assert(unsent_of(s)[unsent_of(s).len() - 1] == x);
            } else {
                assert(dl[i] == x);
                assert(dl.contains(x));
                assert(unsent_of(dl).contains(x));
                let j = choose|j: int| 0 <= j < unsent_of(dl).len() && unsent_of(dl)[j] == x;
                assert(unsent_of(s)[j] == x);
            }
        }
    }
}

/// The record `m` is what inserting `nm` at time `now` must produce, apart
/// from the surrogate id.
pub open spec fn inserted_from(m: Mail, nm: NewMail, now: u64) -> bool {
    &&& m.message_id@ == nm.message_id@
    &&& m.timestamp == nm.timestamp
    &&& m.from@ == nm.from@
    &&& m.subject@ == nm.subject@
    &&& m.sent_on_telegram == false
    &&& m.created_at == now
}

/// The in-memory mail store. Its records are visible through the view `@`
/// as a sequence in insertion order; surrogate ids and message ids are kept
/// unique as a type invariant.
pub struct MailsDB {
    records: Vec<Mail>,
    next_id: u64,
}

impl View for MailsDB {
    type V = Seq<Mail>;

    closed spec fn view(&self) -> Seq<Mail> {
        self.records@
    }
}

fn contains_u64(v: &Vec<u64>, x: u64) -> (b: bool)
    ensures
        b == v@.contains(x),
{
    let mut i: usize = 0;
    while i < v.len()
        invariant
            0 <= i <= v@.len(),
            forall|k: int| 0 <= k < i ==> v@[k] != x,
        decreases v@.len() - i,
    {
        if v[i] == x {
            return true;
        }
        i += 1;
    }
    false
}

pub(crate) fn contains_string(v: &Vec<String>, s: &String) -> (b: bool)
    ensures
        b == v.deep_view().contains(s@),
{
    let mut i: usize = 0;
    while i < v.len()
        invariant
            0 <= i <= v@.len(),
            forall|k: int| 0 <= k < i ==> v@[k]@ != s@,
        decreases v@.len() - i,
    {
        if v[i] == *s {
            assert(v.deep_view()[i as int] == s@);
            return true;
        }
        i += 1;
    }
    assert(forall|k: int| 0 <= k < v.deep_view().len() ==> v.deep_view()[k] != s@);
    false
}

fn clone_mail(m: &Mail) -> (r: Mail)
    ensures
        r == *m,
{
    Mail {
        id: m.id,
        message_id: m.message_id.clone(),
        timestamp: m.timestamp,
        from: m.from.clone(),
        subject: m.subject.clone(),
        sent_on_telegram: m.sent_on_telegram,
        created_at: m.created_at,
    }
}

impl MailsDB {
    #[verifier::type_invariant]
    spec fn inv(self) -> bool {
        &&& ids_unique(self.records@)
        &&& mids_unique(self.records@)
        &&& forall|i: int| 0 <= i < self.records@.len() ==> self.records@[i].id < self.next_id
    }

    /// An empty store.
    pub fn new() -> (r: MailsDB)
        ensures
            r@ == Seq::<Mail>::empty(),
            r.spec_next_id() == 0,
    {
        MailsDB { records: Vec::new(), next_id: 0 }
    }

    /// Rebuilds a store from previously persisted records, for instance rows
    /// read back from durable storage. Succeeds exactly when the rows still
    /// satisfy the store's invariants: distinct surrogate ids, distinct
    /// message ids, and room left to assign fresh ids.
    pub fn from_records(records: Vec<Mail>) -> (r: Result<MailsDB, StoreError>)
        ensures
            r.is_ok() <==> (ids_unique(records@) && mids_unique(records@) && (forall|i: int|
                0 <= i < records@.len() ==> records@[i].id < u64::MAX)),
            r.is_ok() ==> r.unwrap()@ == records@,
            r.is_ok() && records@.len() == 0 ==> r.unwrap().spec_next_id() == 0,
            r.is_ok() && records@.len() > 0 ==> exists|i: int|
                0 <= i < records@.len() && r.unwrap().spec_next_id() == records@[i].id + 1,
    {
        let n = records.len();
        let mut i: usize = 0;
        let mut next: u64 = 0;
        while i < n
            invariant
                n == records@.len(),
                0 <= i <= n,
                ids_unique(records@.take(i as int)),
                mids_unique(records@.take(i as int)),
                forall|k: int| 0 <= k < i ==> records@[k].id < u64::MAX,
                forall|k: int| 0 <= k < i ==> records@[k].id < next,
                i == 0 ==> next == 0,
                i > 0 ==> exists|k: int| 0 <= k < i && next == records@[k].id + 1,
            decreases n - i,
        {
            let mi = &records[i];
            if mi.id == u64::MAX {
                return Err(StoreError::IdSpaceExhausted);
            }
            let mut j: usize = 0;
            while j < i
                invariant
                    n == records@.len(),
                    0 <= j <= i < n,
                    forall|k: int| 0 <= k < j ==> records@[k].id != records@[i as int].id,
                    forall|k: int|
                        0 <= k < j ==> records@[k].message_id@ != records@[i as int].message_id@,
                decreases i - j,
            {
                if records[j].id == records[i].id {
                    return Err(StoreError::DuplicateId(records[i].id));
                }
                if records[j].message_id == records[i].message_id {
                    return Err(StoreError::DuplicateMessageId(records[i].message_id.clone()));
                }
                j += 1;
            }
            if mi.id >= next {
                next = mi.id + 1;
            }
            proof {
                assert(records@.take(i + 1 as int).drop_last() =~= records@.take(i as int));
            }
            i += 1;
        }
        proof {
            assert(records@.take(n as int) =~= records@);
        }
        Ok(MailsDB { records, next_id: next })
    }

    /// The ingestion watermark: the maximum received timestamp across all
    /// records, or nothing while the store is empty.
    pub fn fetch_latest_timestamp(&self) -> (r: Option<u64>)
        ensures
            r.is_none() <==> self@.len() == 0,
            match r {
                Some(m) => (exists|i: int| 0 <= i < self@.len() && self@[i].timestamp == m)
                    && (forall|i: int| 0 <= i < self@.len() ==> self@[i].timestamp <= m),
                None => true,
            },
    {
        let mut best: Option<u64> = None;
        let mut i: usize = 0;
        while i < self.records.len()
            invariant
                0 <= i <= self.records@.len(),
                self@ == self.records@,
                match best {
                    Some(b) => (exists|k: int| 0 <= k < i && self.records@[k].timestamp == b)
                        && (forall|k: int| 0 <= k < i ==> self.records@[k].timestamp <= b),
                    None => i == 0,
                },
            decreases self.records@.len() - i,
        {
            let ts = self.records[i].timestamp;
            best = match best {
                None => Some(ts),
                Some(b) => if ts > b {
                    Some(ts)
                } else {
                    Some(b)
                },
            };
            i += 1;
        }
        best
    }

    /// Whether some record already carries the message id `mid`: the dedup
    /// question the ingestion gate asks for each candidate.
    pub fn knows_message_id(&self, mid: &String) -> (b: bool)
        ensures
            b == contains_message_id(self@, mid@),
    {
        let mut i: usize = 0;
        while i < self.records.len()
            invariant
                0 <= i <= self.records@.len(),
                self@ == self.records@,
                forall|k: int| 0 <= k < i ==> self.records@[k].message_id@ != mid@,
            decreases self.records@.len() - i,
        {
            if self.records[i].message_id == *mid {
                return true;
            }
            i += 1;
        }
        false
    }

    /// The next surrogate id the store will assign; ids grow upward from it.
    pub closed spec fn spec_next_id(self) -> u64 {
        self.next_id
    }

    /// Bulk insert: appends one record per `NewMail`, in order, each with a
    /// fresh surrogate id, the delivery flag clear and `created_at = now`.
    /// Succeeds exactly when no message id of the batch is already stored or
    /// repeated within the batch and the id space is not exhausted; on
    /// failure nothing is stored.
    pub fn store_new_mails(&mut self, new_mails: Vec<NewMail>, now: u64) -> (r: Result<
        (),
        StoreError,
    >)
        ensures
            r.is_ok() <==> ((forall|k: int|
                0 <= k < new_mails@.len() ==> !contains_message_id(
                    old(self)@,
                    new_mails@[k].message_id@,
                )) && (forall|k: int, l: int|
                0 <= k < l < new_mails@.len() ==> new_mails@[k].message_id@
                    != new_mails@[l].message_id@) && old(self).spec_next_id() + new_mails@.len()
                <= u64::MAX),
            r.is_err() ==> final(self)@ == old(self)@ && final(self).spec_next_id() == old(
                self,
            ).spec_next_id(),
            r.is_ok() ==> final(self).spec_next_id() == old(self).spec_next_id()
                + new_mails@.len(),
            r.is_ok() ==> final(self)@.len() == old(self)@.len() + new_mails@.len(),
            r.is_ok() ==> (forall|i: int|
                0 <= i < old(self)@.len() ==> final(self)@[i] == old(self)@[i]),
            r.is_ok() ==> (forall|k: int|
                0 <= k < new_mails@.len() ==> inserted_from(
                    final(self)@[old(self)@.len() + k],
                    new_mails@[k],
                    now,
                )),
            r.is_ok() ==> (forall|k: int, i: int|
                #![trigger final(self)@[old(self)@.len() + k], old(self)@[i]]
                0 <= k < new_mails@.len() && 0 <= i < old(self)@.len() ==> final(self)@[old(
                    self,
                )@.len() + k].id != old(self)@[i].id),
            r matches Err(StoreError::DuplicateMessageId(mid)) ==> (contains_message_id(
                old(self)@,
                mid@,
            ) || exists|k: int, l: int|
                0 <= k < l < new_mails@.len() && new_mails@[k].message_id@ == mid@
                    && new_mails@[l].message_id@ == mid@),
            r matches Err(StoreError::IdSpaceExhausted) ==> old(self).spec_next_id()
                + new_mails@.len() > u64::MAX,
            !(r matches Err(StoreError::DuplicateId(_))),
            forall|i: int|
                0 <= i < old(self)@.len() && old(self)@[i].sent_on_telegram ==> final(self)@[i].sent_on_telegram,
    {
        proof {
            use_type_invariant(&*self);
        }
        let n = new_mails.len();
        let mut k: usize = 0;
        while k < n
            invariant
                self@ == old(self)@,
                self.spec_next_id() == old(self).spec_next_id(),
                self.inv(),
                n == new_mails@.len(),
                0 <= k <= n,
                forall|j: int|
                    0 <= j < k ==> !contains_message_id(old(self)@, new_mails@[j].message_id@),
                forall|j: int, l: int|
                    0 <= j < l < k ==> new_mails@[j].message_id@ != new_mails@[l].message_id@,
            decreases n - k,
        {
            if self.knows_message_id(&new_mails[k].message_id) {
                return Err(StoreError::DuplicateMessageId(new_mails[k].message_id.clone()));
            }
            let mut l: usize = 0;
            while l < k
                invariant
                    self@ == old(self)@,
                    self.spec_next_id() == old(self).spec_next_id(),
                    self.inv(),
                    n == new_mails@.len(),
                    0 <= l <= k < n,
                    forall|j: int|
                        0 <= j < k ==> !contains_message_id(old(self)@, new_mails@[j].message_id@),
                    !contains_message_id(old(self)@, new_mails@[k as int].message_id@),
                    forall|j: int, jj: int|
                        0 <= j < jj < k ==> new_mails@[j].message_id@ != new_mails@[jj].message_id@,
                    forall|j: int|
                        0 <= j < l ==> new_mails@[j].message_id@ != new_mails@[k as int].message_id@,
                decreases k - l,
            {
                if new_mails[l].message_id == new_mails[k].message_id {
                    return Err(StoreError::DuplicateMessageId(new_mails[k].message_id.clone()));
                }
                l += 1;
            }
            k += 1;
        }
        if (n as u64) > u64::MAX - self.next_id {
            return Err(StoreError::IdSpaceExhausted);
        }
        let ghost old_len = self.records@.len() as int;
        let mut recs: Vec<Mail> = Vec::new();
        core::mem::swap(&mut recs, &mut self.records);
        let mut idx: usize = 0;
        while idx < n
            invariant
                n == new_mails@.len(),
                0 <= idx <= n,
                old_len == old(self)@.len(),
                self.records@.len() == 0,
                recs@.len() == old_len + idx,
                self.next_id == old(self).spec_next_id() + idx,
                old(self).spec_next_id() + n <= u64::MAX,
                forall|i: int| 0 <= i < old_len ==> recs@[i] == old(self)@[i],
                forall|j: int|
                    0 <= j < idx ==> inserted_from(recs@[old_len + j], new_mails@[j], now)
                        && recs@[old_len + j].id == old(self).spec_next_id() + j,
                forall|j: int|
                    0 <= j < n ==> !contains_message_id(old(self)@, new_mails@[j].message_id@),
                forall|j: int, l: int|
                    0 <= j < l < n ==> new_mails@[j].message_id@ != new_mails@[l].message_id@,
                ids_unique(recs@),
                mids_unique(recs@),
                forall|i: int| 0 <= i < recs@.len() ==> recs@[i].id < self.next_id,
            decreases n - idx,
        {
            let m = Mail {
                id: self.next_id,
                message_id: new_mails[idx].message_id.clone(),
                timestamp: new_mails[idx].timestamp,
                from: new_mails[idx].from.clone(),
                subject: new_mails[idx].subject.clone(),
                sent_on_telegram: false,
                created_at: now,
            };
            recs.push(m);
            proof {
                assert forall|a: int, b: int|
                    0 <= a < b < recs@.len() implies recs@[a].message_id@
                    != recs@[b].message_id@ by {
                    if b == recs@.len() - 1 {
                        assert(recs@[b].message_id@ == new_mails@[idx as int].message_id@);
                        if a < old_len {
                            assert(recs@[a] == old(self)@[a]);
                            assert(!contains_message_id(
                                old(self)@,
                                new_mails@[idx as int].message_id@,
                            ));
                        } else {
                            assert(inserted_from(recs@[a], new_mails@[a - old_len], now));
                            assert(new_mails@[a - old_len].message_id@ != new_mails@[idx as int].message_id@);
                        }
                    }
                }
            }
            self.next_id = self.next_id + 1;
            idx += 1;
        }
        let ghost built: Seq<Mail> = recs@;
        proof {
            assert forall|k: int|
                0 <= k < new_mails@.len() implies (#[trigger] built[old(self)@.len() + k]).id
                == old(self).spec_next_id() + k && inserted_from(
                built[old(self)@.len() + k],
                new_mails@[k],
                now,
            ) by {
                assert(built[old(self)@.len() + k] == recs@[old_len + k]);
                assert(inserted_from(recs@[old_len + k], new_mails@[k], now) && recs@[old_len
                    + k].id == old(self).spec_next_id() + k);
            }
            assert forall|i: int| 0 <= i < old(self)@.len() implies #[trigger] built[i] == old(
                self,
            )@[i] by {
                assert(built[i] == recs@[i]);
            }
        }
        self.records = recs;
        proof {
            assert(self.records@ == built);
            assert forall|i: int| 0 <= i < old(self)@.len() implies self.records@[i] == old(
                self,
            )@[i] by {
                assert(self.records@[i] == built[i]);
            }
            assert forall|k: int|
                0 <= k < new_mails@.len() implies inserted_from(
                #[trigger] self.records@[old(self)@.len() + k],
                new_mails@[k],
                now,
            ) by {
                assert(self.records@[old(self)@.len() + k] == built[old(self)@.len() + k]);
            }
            assert forall|k: int, i: int|
                #![trigger self.records@[old(self)@.len() + k], old(self)@[i]]
                0 <= k < new_mails@.len() && 0 <= i < old(self)@.len() implies self.records@[old(
                self,
            )@.len() + k].id != old(self)@[i].id by {
                assert(self.records@[old(self)@.len() + k] == built[old(self)@.len() + k]);
                assert(built[old(self)@.len() + k].id == old(self).spec_next_id() + k);
                assert(old(self)@[i].id < old(self).spec_next_id());
            }
        }
        Ok(())
    }

    /// Sets the delivery-confirmation flag for exactly the records whose
    /// surrogate id is listed; every other record is untouched. The flag
    /// only ever goes from clear to set, never back.
    pub fn update_mails_as_sent(&mut self, ids: &Vec<u64>) -> (r: Result<(), StoreError>)
        ensures
            r.is_ok(),
            final(self).spec_next_id() == old(self).spec_next_id(),
            final(self)@.len() == old(self)@.len(),
            forall|i: int|
                0 <= i < old(self)@.len() ==> final(self)@[i] == (if ids@.contains(
                    old(self)@[i].id,
                ) {
                    marked_sent(old(self)@[i])
                } else {
                    old(self)@[i]
                }),
            forall|i: int|
                0 <= i < old(self)@.len() && old(self)@[i].sent_on_telegram ==> final(self)@[i].sent_on_telegram,
    {
        proof {
            use_type_invariant(&*self);
        }
        let n = self.records.len();
        let mut out: Vec<Mail> = Vec::new();
        let mut i: usize = 0;
        while i < n
            invariant
                n == old(self)@.len(),
                self@ == old(self)@,
                self.next_id == old(self).spec_next_id(),
                0 <= i <= n,
                out@.len() == i,
                forall|k: int|
                    0 <= k < i ==> out@[k] == (if ids@.contains(old(self)@[k].id) {
                        marked_sent(old(self)@[k])
                    } else {
                        old(self)@[k]
                    }),
                forall|k: int|
                    0 <= k < i ==> out@[k].id == old(self)@[k].id && out@[k].message_id@ == old(
                        self,
                    )@[k].message_id@,
                ids_unique(old(self)@),
                mids_unique(old(self)@),
                forall|k: int|
                    0 <= k < old(self)@.len() ==> old(self)@[k].id < old(self).spec_next_id(),
            decreases n - i,
        {
            if contains_u64(ids, self.records[i].id) {
                let mut updated = clone_mail(&self.records[i]);
                updated.sent_on_telegram = true;
                proof {
                    assert(updated == marked_sent(old(self)@[i as int]));
                }
                out.push(updated);
            } else {
                out.push(clone_mail(&self.records[i]));
            }
            i += 1;
        }
        proof {
            assert forall|a: int, b: int| 0 <= a < b < out@.len() implies out@[a].id
                != out@[b].id by {
                assert(out@[a].id == old(self)@[a].id);
                assert(out@[b].id == old(self)@[b].id);
            }
            assert forall|a: int, b: int| 0 <= a < b < out@.len() implies out@[a].message_id@
                != out@[b].message_id@ by {
                assert(out@[a].message_id@ == old(self)@[a].message_id@);
                assert(out@[b].message_id@ == old(self)@[b].message_id@);
            }
        }
        core::mem::swap(&mut self.records, &mut out);
        Ok(())
    }

    /// The records whose message id occurs in `message_ids`, in store order:
    /// the store side of the dedup gate. Ids that match nothing simply
    /// contribute nothing.
    pub fn find_mails_by_message_ids(&self, message_ids: &Vec<String>) -> (r: Vec<Mail>)
        ensures
            r@ == matching_of(self@, message_ids.deep_view()),
    {
        let mut r: Vec<Mail> = Vec::new();
        let mut i: usize = 0;
        while i < self.records.len()
            invariant
                0 <= i <= self.records@.len(),
                self@ == self.records@,
                r@ == matching_of(self.records@.take(i as int), message_ids.deep_view()),
            decreases self.records@.len() - i,
        {
            proof {
                assert(self.records@.take(i + 1).drop_last() =~= self.records@.take(i as int));
                assert(self.records@.take(i + 1).last() == self.records@[i as int]);
            }
            if contains_string(message_ids, &self.records[i].message_id) {
                r.push(clone_mail(&self.records[i]));
            }
            i += 1;
        }
        proof {
            assert(self.records@.take(self.records@.len() as int) =~= self.records@);
        }
        r
    }

    /// All records whose delivery flag is still clear, ordered by ascending
    /// received timestamp (oldest first): the delivery plan, in the order
    /// the recipient must see the mail.
    pub fn fetch_unsent_mails(&self) -> (r: Vec<Mail>)
        ensures
            sorted_by_timestamp(r@),
            r@.to_multiset() == unsent_of(self@).to_multiset(),
            r@.len() == unsent_of(self@).len(),
            forall|k: int|
                0 <= k < r@.len() ==> !(#[trigger] r@[k]).sent_on_telegram && self@.contains(
                    r@[k],
                ),
    {
        let mut pool: Vec<Mail> = Vec::new();
        let mut i: usize = 0;
        while i < self.records.len()
            invariant
                0 <= i <= self.records@.len(),
                self@ == self.records@,
                pool@ == unsent_of(self.records@.take(i as int)),
            decreases self.records@.len() - i,
        {
            proof {
                assert(self.records@.take(i + 1).drop_last() =~= self.records@.take(i as int));
                assert(self.records@.take(i + 1).last() == self.records@[i as int]);
            }
            if !self.records[i].sent_on_telegram {
                pool.push(clone_mail(&self.records[i]));
            }
            i += 1;
        }
        proof {
            assert(self.records@.take(self.records@.len() as int) =~= self.records@);
            lemma_unsent_of_membership(self@);
            assert forall|k: int| 0 <= k < pool@.len() implies !(#[trigger] pool@[k]).sent_on_telegram
                && self@.contains(pool@[k]) by {
                assert(unsent_of(self@).contains(pool@[k]));
            }
        }
        let ghost target: Seq<Mail> = unsent_of(self@);
        let mut out: Vec<Mail> = Vec::new();
        while pool.len() > 0
            invariant
                out@.to_multiset().add(pool@.to_multiset()) == target.to_multiset(),
                sorted_by_timestamp(out@),
                forall|a: int, b: int|
                    0 <= a < out@.len() && 0 <= b < pool@.len() ==> (#[trigger] out@[a]).timestamp
                        <= (#[trigger] pool@[b]).timestamp,
                forall|k: int|
                    0 <= k < out@.len() ==> !(#[trigger] out@[k]).sent_on_telegram
                        && self@.contains(out@[k]),
                forall|k: int|
                    0 <= k < pool@.len() ==> !(#[trigger] pool@[k]).sent_on_telegram
                        && self@.contains(pool@[k]),
            decreases pool@.len(),
        {
            let mut mi: usize = 0;
            let mut j: usize = 1;
            while j < pool.len()
                invariant
                    0 <= mi < j <= pool@.len(),
                    forall|k: int|
                        0 <= k < j ==> pool@[mi as int].timestamp <= (#[trigger] pool@[k]).timestamp,
                decreases pool@.len() - j,
            {
                if pool[j].timestamp < pool[mi].timestamp {
                    mi = j;
                }
                j += 1;
            }
            let ghost pool_before: Seq<Mail> = pool@;
            let ghost out_before: Seq<Mail> = out@;
            let m = pool.remove(mi);
            out.push(m);
            proof {
                assert(pool@.to_multiset() =~= pool_before.to_multiset().remove(m));
                assert(out@.to_multiset() =~= out_before.to_multiset().insert(m));
                assert(pool_before.contains(m));
                assert(pool_before.to_multiset().count(m) > 0);
                assert(out@.to_multiset().add(pool@.to_multiset()) =~= target.to_multiset());
                assert forall|a: int, b: int|
                    0 <= a < out@.len() && 0 <= b < pool@.len() implies (#[trigger] out@[a]).timestamp
                    <= (#[trigger] pool@[b]).timestamp by {
                    assert(pool@[b] == if b < mi {
                        pool_before[b]
                    } else {
                        pool_before[b + 1]
                    });
                    if a < out@.len() - 1 {
                        assert(out@[a] == out_before[a]);
                    } else {
                        assert(out@[a] == m);
                    }
                }
                assert forall|k: int| 0 <= k < pool@.len() implies !(#[trigger] pool@[k]).sent_on_telegram
                    && self@.contains(pool@[k]) by {
                    assert(pool@[k] == if k < mi {
                        pool_before[k]
                    } else {
                        pool_before[k + 1]
                    });
                }
            }
        }
        proof {
            assert(pool@.to_multiset() =~= Multiset::<Mail>::empty());
            assert(out@.to_multiset() =~= target.to_multiset());
            assert(out@.len() == out@.to_multiset().len());
            assert(target.len() == target.to_multiset().len());
        }
        out
    }

    /// Looks a single record up by its message id — there is at most one,
    /// since message ids are kept unique — or nothing when the id was never
    /// ingested.
    pub fn check_existing_mail(&self, mid: &String) -> (r: Option<Mail>)
        ensures
            r.is_some() <==> contains_message_id(self@, mid@),
            match r {
                Some(m) => m.message_id@ == mid@ && exists|i: int|
                    0 <= i < self@.len() && self@[i] == m,
                None => true,
            },
    {
        let mut i: usize = 0;
        while i < self.records.len()
            invariant
                0 <= i <= self.records@.len(),
                self@ == self.records@,
                forall|k: int| 0 <= k < i ==> self.records@[k].message_id@ != mid@,
            decreases self.records@.len() - i,
        {
            if self.records[i].message_id == *mid {
                return Some(clone_mail(&self.records[i]));
            }
            i += 1;
        }
        None
    }
}

} // verus!
