//! The ingestion pipeline's decisions: which listed candidates are new
//! relative to the store, what the provider listing query says, which fields
//! and HTML payload a fetched message yields, and what is persisted once the
//! renders are done. The provider calls themselves (listing, fetching) are
//! made by the surrounding program, which hands their outcomes in as plain
//! values.

use vstd::prelude::*;

use crate::db::{contains_message_id, contains_string, inserted_from, Mail, MailsDB, NewMail, StoreError};
use crate::decimal::{append_decimal, dec_rep};

verus! {

/// Upper bound on the number of summaries asked from the provider in one
/// run, so a single run's cost stays bounded when there is no watermark yet.
pub const GMAIL_MESSAGES_LIMIT: u32 = 30;

/// One entry of the provider's message listing: the id alone, no body.
pub struct MessageSummary {
    pub id: String,
}

/// One header of a fetched message; the provider may omit either side.
pub struct GmailHeader {
    pub name: Option<String>,
    pub value: Option<String>,
}

/// The body of one MIME part; `data` carries the decoded bytes when present.
pub struct GmailPartBody {
    pub data: Option<Vec<u8>>,
}

/// One MIME part of a fetched message's payload.
pub struct GmailPart {
    pub body: Option<GmailPartBody>,
}

/// The structured payload of a fetched message.
pub struct GmailPayload {
    pub headers: Option<Vec<GmailHeader>>,
    pub parts: Option<Vec<GmailPart>>,
}

/// A fetched message as the provider returns it: every field may be absent,
/// and extraction decides which absences reject the message.
/// `internal_date` is the provider's receive time in epoch-milliseconds.
pub struct GmailMessage {
    pub id: Option<String>,
    pub internal_date: Option<u64>,
    pub payload: Option<GmailPayload>,
}

/// What extraction pulls out of one fetched message: the record to persist
/// and the HTML bytes to render.
pub struct ExtractedMailData {
    pub new_mail: NewMail,
    pub html: Vec<u8>,
}

/// Why one fetched message was rejected by extraction. Each failure concerns
/// that message alone, never the rest of the batch.
#[derive(Debug)]
pub enum ExtractError {
    MissingHtml,
    MissingId,
    MissingTimestamp,
}

/// The HTML payload of `m`: the data of the body of its second MIME part,
/// which is where the provider places the renderable HTML alternative.
pub open spec fn spec_html_data(m: GmailMessage) -> Option<Seq<u8>> {
    match m.payload {
        None => None,
        Some(p) => match p.parts {
            None => None,
            Some(parts) => if parts@.len() < 2 {
                None
            } else {
                match parts@[1].body {
                    None => None,
                    Some(b) => match b.data {
                        None => None,
                        Some(d) => Some(d@),
                    },
                }
            },
        },
    }
}

/// The value of the first header named `name`, or empty when no header of
/// that name exists or the first one carries no value.
pub open spec fn spec_header_value(headers: Seq<GmailHeader>, name: Seq<char>) -> Seq<char>
    decreases headers.len(),
{
    if headers.len() == 0 {
        Seq::empty()
    } else {
        match headers[0].name {
            Some(n) => if n@ == name {
                match headers[0].value {
                    Some(v) => v@,
                    None => Seq::empty(),
                }
            } else {
                spec_header_value(headers.drop_first(), name)
            },
            None => spec_header_value(headers.drop_first(), name),
        }
    }
}

/// The header `name` of `m`, or empty when the message has no payload or no
/// header list.
pub open spec fn spec_message_header(m: GmailMessage, name: Seq<char>) -> Seq<char> {
    match m.payload {
        None => Seq::empty(),
        Some(p) => match p.headers {
            None => Seq::empty(),
            Some(hs) => spec_header_value(hs@, name),
        },
    }
}

/// Extraction accepts `m`: the HTML part, the message id and the timestamp
/// are all present. Sender and subject are never required.
pub open spec fn extraction_ok(m: GmailMessage) -> bool {
    &&& spec_html_data(m) is Some
    &&& m.id is Some
    &&& m.internal_date is Some
}

/// `e` is exactly what extraction of `m` must produce.
pub open spec fn extraction_matches(m: GmailMessage, e: ExtractedMailData) -> bool {
    &&& e.html@ == spec_html_data(m).unwrap()
    &&& e.new_mail.message_id@ == m.id.unwrap()@
    &&& e.new_mail.timestamp == m.internal_date.unwrap()
    &&& e.new_mail.from@ == spec_message_header(m, "From"@)
    &&& e.new_mail.subject@ == spec_message_header(m, "Subject"@)
}

/// The ids of a listing, in listing order.
pub open spec fn summary_ids(summaries: Seq<MessageSummary>) -> Seq<Seq<char>> {
    summaries.map_values(|s: MessageSummary| s.id@)
}

/// The dedup gate over a listing: the ids that are neither stored already
/// nor listed earlier, in listing order. Only these are fetched.
pub open spec fn spec_new_ids(records: Seq<Mail>, ids: Seq<Seq<char>>) -> Seq<Seq<char>>
    decreases ids.len(),
{
    if ids.len() == 0 {
        Seq::empty()
    } else {
        let prev = spec_new_ids(records, ids.drop_last());
        if contains_message_id(records, ids.last()) || prev.contains(ids.last()) {
            prev
        } else {
            prev.push(ids.last())
        }
    }
}

/// The provider listing query for the next run: all unread mail, bounded
/// strictly after the watermark when one exists. The watermark's
/// epoch-milliseconds are reduced to whole seconds, the unit the provider's
/// `after:` filter takes.
pub open spec fn spec_search_query(latest: Option<u64>) -> Seq<char> {
    match latest {
        None => "is:unread"@,
        Some(ts) => "is:unread after:"@ + dec_rep((ts / 1000) as nat),
    }
}

/// Builds the provider listing query from the store watermark.
pub fn gmail_search_query(latest: Option<u64>) -> (r: String)
    ensures
        r@ == spec_search_query(latest),
{
    match latest {
        None => "is:unread".to_owned(),
        Some(ts) => {
            let mut s = "is:unread after:".to_owned();
            append_decimal(&mut s, ts / 1000);
            s
        },
    }
}

/// Computes which listed candidates to fetch: the ids of `summaries` that
/// the store does not know and that did not occur earlier in the listing.
/// Ids already persisted are dropped here unconditionally; this is the
/// at-most-once gate of the pipeline.
pub fn new_message_ids(db: &MailsDB, summaries: &Vec<MessageSummary>) -> (r: Vec<String>)
    ensures
        r.deep_view() == spec_new_ids(db@, summary_ids(summaries@)),
{
    let mut r: Vec<String> = Vec::new();
    let mut i: usize = 0;
    proof {
        assert(summary_ids(summaries@.take(0)) =~= Seq::<Seq<char>>::empty());
    }
    while i < summaries.len()
        invariant
            0 <= i <= summaries@.len(),
            r.deep_view() == spec_new_ids(db@, summary_ids(summaries@.take(i as int))),
        decreases summaries@.len() - i,
    {
        proof {
            assert(summary_ids(summaries@.take(i + 1)).drop_last() =~= summary_ids(
                summaries@.take(i as int),
            ));
            assert(summary_ids(summaries@.take(i + 1)).last() == summaries@[i as int].id@);
        }
        let sid = &summaries[i].id;
        if !db.knows_message_id(sid) && !contains_string(&r, sid) {
            let ghost prev = r.deep_view();
            r.push(sid.clone());
            proof {
                assert(r.deep_view() =~= prev.push(sid@));
            }
        }
        i += 1;
    }
    proof {
        assert(summaries@.take(summaries@.len() as int) =~= summaries@);
    }
    r
}

/// At-most-once insert: nothing the dedup gate plans is already stored, and
/// the plan holds no id twice. Together with the store's refusal to insert a
/// known or repeated message id, the persisted batch can never duplicate a
/// record.
pub proof fn lemma_new_ids_fresh(records: Seq<Mail>, ids: Seq<Seq<char>>)
    ensures
        forall|j: int|
            0 <= j < spec_new_ids(records, ids).len() ==> !contains_message_id(
                records,
                #[trigger] spec_new_ids(records, ids)[j],
            ),
        forall|j: int, k: int|
            0 <= j < k < spec_new_ids(records, ids).len() ==> spec_new_ids(records, ids)[j]
                != spec_new_ids(records, ids)[k],
    decreases ids.len(),
{
    if ids.len() > 0 {
        lemma_new_ids_fresh(records, ids.drop_last());
        let prev = spec_new_ids(records, ids.drop_last());
        let cur = spec_new_ids(records, ids);
        if !contains_message_id(records, ids.last()) && !prev.contains(ids.last()) {
            assert(cur == prev.push(ids.last()));
            assert forall|j: int, k: int| 0 <= j < k < cur.len() implies cur[j] != cur[k] by {
                if k == cur.len() - 1 {
                    assert(cur[j] == prev[j]);
                    assert(!prev.contains(ids.last()));
                }
            }
        }
    }
}

/// Every listed id is either already stored or part of the plan: a run that
/// ingests everything it planned leaves no listed id unpersisted, which is
/// what makes the next run's gate close completely.
pub proof fn lemma_new_ids_complete(records: Seq<Mail>, ids: Seq<Seq<char>>)
    ensures
        forall|k: int|
            0 <= k < ids.len() ==> contains_message_id(records, #[trigger] ids[k]) || spec_new_ids(
                records,
                ids,
            ).contains(ids[k]),
    decreases ids.len(),
{
    if ids.len() > 0 {
        lemma_new_ids_complete(records, ids.drop_last());
        let prev = spec_new_ids(records, ids.drop_last());
        let cur = spec_new_ids(records, ids);
        assert forall|k: int|
            0 <= k < ids.len() implies contains_message_id(records, #[trigger] ids[k])
            || cur.contains(ids[k]) by {
            if k < ids.len() - 1 {
                assert(ids.drop_last()[k] == ids[k]);
                if !contains_message_id(records, ids[k]) {
                    assert(prev.contains(ids[k]));
                    let j = choose|j: int| 0 <= j < prev.len() && prev[j] == ids[k];
                    assert(cur[j] == ids[k]);
                }
            } else {
                if !contains_message_id(records, ids.last()) {
                    if prev.contains(ids.last()) {
                        let j = choose|j: int| 0 <= j < prev.len() && prev[j] == ids.last();
                        assert(cur[j] == ids.last());
                    } else {
                        assert(cur[cur.len() - 1] == ids.last());
                    }
                }
            }
        }
    }
}

/// Dedup idempotence: once every listed id is persisted — as it is after a
/// run that ingested its whole plan — replaying the same listing plans no
/// fetch at all, so a second run cannot grow the store.
pub proof fn lemma_ingestion_idempotent(records_after: Seq<Mail>, ids: Seq<Seq<char>>)
    requires
        forall|k: int| 0 <= k < ids.len() ==> contains_message_id(records_after, #[trigger] ids[k]),
    ensures
        spec_new_ids(records_after, ids) == Seq::<Seq<char>>::empty(),
    decreases ids.len(),
{
    if ids.len() > 0 {
        assert forall|k: int|
            0 <= k < ids.drop_last().len() implies contains_message_id(
            records_after,
            #[trigger] ids.drop_last()[k],
        ) by {
            assert(ids.drop_last()[k] == ids[k]);
        }
        lemma_ingestion_idempotent(records_after, ids.drop_last());
        assert(contains_message_id(records_after, ids.last()));
    }
}

/// Running ingestion twice against an unchanged mailbox cannot grow the
/// store: when a first run over `records` persisted every id it planned,
/// extending the records to `records2`, then replaying the same listing
/// plans no fetch and hence no insert at all.
pub proof fn lemma_second_listing_plans_nothing(
    records: Seq<Mail>,
    records2: Seq<Mail>,
    ids: Seq<Seq<char>>,
)
    requires
        records2.len() >= records.len(),
        forall|i: int| 0 <= i < records.len() ==> records2[i] == records[i],
        forall|j: int|
            0 <= j < spec_new_ids(records, ids).len() ==> contains_message_id(
                records2,
                #[trigger] spec_new_ids(records, ids)[j],
            ),
    ensures
        spec_new_ids(records2, ids) == Seq::<Seq<char>>::empty(),
{
    lemma_new_ids_complete(records, ids);
    assert forall|k: int| 0 <= k < ids.len() implies contains_message_id(
        records2,
        #[trigger] ids[k],
    ) by {
        if contains_message_id(records, ids[k]) {
            let i = choose|i: int| 0 <= i < records.len() && records[i].message_id@ == ids[k];
            assert(records2[i].message_id@ == ids[k]);
        } else {
            assert(spec_new_ids(records, ids).contains(ids[k]));
            let j = choose|j: int|
                0 <= j < spec_new_ids(records, ids).len() && spec_new_ids(records, ids)[j]
                    == ids[k];
            assert(contains_message_id(records2, spec_new_ids(records, ids)[j]));
        }
    }
    lemma_ingestion_idempotent(records2, ids);
}

fn header_value(headers: &Vec<GmailHeader>, name: &String) -> (r: String)
    ensures
        r@ == spec_header_value(headers@, name@),
{
    let mut i: usize = 0;
    proof {
        assert(headers@.skip(0) =~= headers@);
    }
    while i < headers.len()
        invariant
            0 <= i <= headers@.len(),
            spec_header_value(headers@, name@) == spec_header_value(
                headers@.skip(i as int),
                name@,
            ),
        decreases headers@.len() - i,
    {
        proof {
            assert(headers@.skip(i as int)[0] == headers@[i as int]);
            assert(headers@.skip(i as int).drop_first() =~= headers@.skip(i + 1));
        }
        match &headers[i].name {
            Some(n) => {
                if *n == *name {
                    match &headers[i].value {
                        Some(v) => {
                            return v.clone();
                        },
                        None => {
                            return String::new();
                        },
                    }
                }
            },
            None => {},
        }
        i += 1;
    }
    proof {
        assert(headers@.skip(headers@.len() as int) =~= Seq::<GmailHeader>::empty());
    }
    String::new()
}

/// Pulls the persistable fields and the HTML payload out of one fetched
/// message. A message without an HTML part, without an id or without a
/// timestamp is rejected, naming the first missing piece; a missing sender
/// or subject header only defaults to empty.
pub fn extract_gmail_message_data(message: GmailMessage) -> (r: Result<
    ExtractedMailData,
    ExtractError,
>)
    ensures
        r.is_ok() <==> extraction_ok(message),
        r matches Ok(e) ==> extraction_matches(message, e),
        r matches Err(ExtractError::MissingHtml) <==> spec_html_data(message) is None,
        r matches Err(ExtractError::MissingId) <==> (spec_html_data(message) is Some
            && message.id is None),
        r matches Err(ExtractError::MissingTimestamp) <==> (spec_html_data(message) is Some
            && message.id is Some && message.internal_date is None),
{
    let GmailMessage { id, internal_date, payload } = message;
    let (headers_opt, parts_opt) = match payload {
        None => (None, None),
        Some(p) => (p.headers, p.parts),
    };
    let html: Vec<u8> = match parts_opt {
        None => {
            return Err(ExtractError::MissingHtml);
        },
        Some(mut parts) => {
            if parts.len() < 2 {
                return Err(ExtractError::MissingHtml);
            }
            let part = parts.remove(1);
            match part.body {
                None => {
                    return Err(ExtractError::MissingHtml);
                },
                Some(b) => match b.data {
                    None => {
                        return Err(ExtractError::MissingHtml);
                    },
                    Some(d) => d,
                },
            }
        },
    };
    let message_id: String = match id {
        None => {
            return Err(ExtractError::MissingId);
        },
        Some(v) => v,
    };
    let timestamp: u64 = match internal_date {
        None => {
            return Err(ExtractError::MissingTimestamp);
        },
        Some(v) => v,
    };
    let headers: Vec<GmailHeader> = match headers_opt {
        None => Vec::new(),
        Some(h) => h,
    };
    let from = header_value(&headers, &"From".to_owned());
    let subject = header_value(&headers, &"Subject".to_owned());
    Ok(ExtractedMailData { new_mail: NewMail { from, message_id, timestamp, subject }, html })
}

/// The outcome of fetching one planned id: the full message, or nothing
/// when that single fetch failed.
pub struct FetchOutcome {
    pub id: String,
    pub message: Option<GmailMessage>,
}

/// The fetched messages of a batch that extraction accepts, in batch order.
pub open spec fn extractable(outs: Seq<FetchOutcome>) -> Seq<GmailMessage>
    decreases outs.len(),
{
    if outs.len() == 0 {
        Seq::empty()
    } else {
        let prev = extractable(outs.drop_last());
        match outs.last().message {
            Some(m) => if extraction_ok(m) {
                prev.push(m)
            } else {
                prev
            },
            None => prev,
        }
    }
}

/// The ids of the batch entries that are skipped — failed fetches and
/// messages extraction rejects — in batch order.
pub open spec fn skipped_ids(outs: Seq<FetchOutcome>) -> Seq<Seq<char>>
    decreases outs.len(),
{
    if outs.len() == 0 {
        Seq::empty()
    } else {
        let prev = skipped_ids(outs.drop_last());
        match outs.last().message {
            Some(m) => if extraction_ok(m) {
                prev
            } else {
                prev.push(outs.last().id@)
            },
            None => prev.push(outs.last().id@),
        }
    }
}

/// Extracts every fetched message of a batch. An entry whose fetch failed
/// or whose extraction was rejected is skipped and its id reported; it
/// never aborts the rest of the batch. Returns the extracted messages in
/// batch order together with the skipped ids.
pub fn extract_new_messages(fetched: Vec<FetchOutcome>) -> (r: (
    Vec<ExtractedMailData>,
    Vec<String>,
))
    ensures
        r.0@.len() == extractable(fetched@).len(),
        forall|k: int|
            0 <= k < r.0@.len() ==> extraction_matches(
                extractable(fetched@)[k],
                #[trigger] r.0@[k],
            ),
        r.1.deep_view() == skipped_ids(fetched@),
        r.0@.len() + r.1@.len() == fetched@.len(),
{
    let ghost orig: Seq<FetchOutcome> = fetched@;
    let mut rest = fetched;
    let total: usize = rest.len();
    let mut exts: Vec<ExtractedMailData> = Vec::new();
    let mut skips: Vec<String> = Vec::new();
    let mut i: usize = 0;
    proof {
        assert(orig.take(0) =~= Seq::<FetchOutcome>::empty());
        assert(orig.skip(0) =~= orig);
    }
    while rest.len() > 0
        invariant
            total == orig.len(),
            0 <= i <= orig.len(),
            i + rest@.len() == orig.len(),
            rest@ == orig.skip(i as int),
            exts@.len() == extractable(orig.take(i as int)).len(),
            forall|k: int|
                0 <= k < exts@.len() ==> extraction_matches(
                    extractable(orig.take(i as int))[k],
                    #[trigger] exts@[k],
                ),
            skips.deep_view() == skipped_ids(orig.take(i as int)),
            exts@.len() + skips@.len() == i,
        decreases rest@.len(),
    {
        proof {
            assert(orig.take(i + 1).drop_last() =~= orig.take(i as int));
            assert(orig.take(i + 1).last() == orig[i as int]);
            assert(rest@[0] == orig[i as int]);
        }
        let fo = rest.remove(0);
        proof {
            assert(rest@ =~= orig.skip(i + 1));
        }
        let FetchOutcome { id: fid, message: fmsg } = fo;
        let ghost skips_prev = skips.deep_view();
        match fmsg {
            None => {
                skips.push(fid);
                proof {
                    assert(skips.deep_view() =~= skips_prev.push(orig[i as int].id@));
                }
            },
            Some(msg) => {
                match extract_gmail_message_data(msg) {
                    Ok(e) => {
                        exts.push(e);
                    },
                    Err(_) => {
                        skips.push(fid);
                        proof {
                            assert(skips.deep_view() =~= skips_prev.push(orig[i as int].id@));
                        }
                    },
                }
            },
        }
        i += 1;
    }
    proof {
        assert(orig.take(orig.len() as int) =~= orig);
    }
    (exts, skips)
}

/// One extracted message paired with the outcome of its render: `rendered`
/// says whether its PDF artifact was written to the staging directory.
pub struct RenderedMail {
    pub new_mail: NewMail,
    pub rendered: bool,
}

/// The records of the batch entries whose render succeeded, in batch order:
/// exactly what one ingestion run persists.
pub open spec fn rendered_kept(rs: Seq<RenderedMail>) -> Seq<NewMail>
    decreases rs.len(),
{
    if rs.len() == 0 {
        Seq::empty()
    } else {
        let prev = rendered_kept(rs.drop_last());
        if rs.last().rendered {
            prev.push(rs.last().new_mail)
        } else {
            prev
        }
    }
}

/// Counts reported at the end of one ingestion run.
pub struct IngestReport {
    pub persisted: usize,
    pub render_failures: usize,
}

fn clone_new_mail(nm: &NewMail) -> (r: NewMail)
    ensures
        r == *nm,
{
    NewMail {
        from: nm.from.clone(),
        message_id: nm.message_id.clone(),
        timestamp: nm.timestamp,
        subject: nm.subject.clone(),
    }
}

/// Persists one ingestion run's outcome: the records whose render succeeded
/// are inserted as one batch, entries whose render failed are only counted
/// and left for the next run to retry (their ids are still unknown to the
/// store). Fails exactly when the store refuses the batch, and then stores
/// nothing.
pub fn store_rendered_mails(db: &mut MailsDB, rendered: Vec<RenderedMail>, now: u64) -> (r: Result<
    IngestReport,
    StoreError,
>)
    ensures
        r.is_ok() <==> ((forall|k: int|
            0 <= k < rendered_kept(rendered@).len() ==> !contains_message_id(
                old(db)@,
                #[trigger] rendered_kept(rendered@)[k].message_id@,
            )) && (forall|k: int, l: int|
            0 <= k < l < rendered_kept(rendered@).len() ==> rendered_kept(
                rendered@,
            )[k].message_id@ != rendered_kept(rendered@)[l].message_id@) && old(db).spec_next_id()
            + rendered_kept(rendered@).len() <= u64::MAX),
        r.is_err() ==> final(db)@ == old(db)@ && final(db).spec_next_id() == old(
            db,
        ).spec_next_id(),
        r.is_ok() ==> final(db).spec_next_id() == old(db).spec_next_id() + rendered_kept(
            rendered@,
        ).len(),
        r matches Ok(rep) ==> rep.persisted == rendered_kept(rendered@).len()
            && rep.render_failures + rendered_kept(rendered@).len() == rendered@.len(),
        r.is_ok() ==> final(db)@.len() == old(db)@.len() + rendered_kept(rendered@).len(),
        r.is_ok() ==> (forall|i: int| 0 <= i < old(db)@.len() ==> final(db)@[i] == old(db)@[i]),
        r.is_ok() ==> (forall|k: int|
            0 <= k < rendered_kept(rendered@).len() ==> inserted_from(
                final(db)@[old(db)@.len() + k],
                rendered_kept(rendered@)[k],
                now,
            )),
{
    let n = rendered.len();
    let mut keep: Vec<NewMail> = Vec::new();
    let mut i: usize = 0;
    proof {
        assert(rendered@.take(0) =~= Seq::<RenderedMail>::empty());
    }
    while i < n
        invariant
            n == rendered@.len(),
            0 <= i <= n,
            keep@ == rendered_kept(rendered@.take(i as int)),
            keep@.len() <= i,
        decreases n - i,
    {
        proof {
            assert(rendered@.take(i + 1).drop_last() =~= rendered@.take(i as int));
            assert(rendered@.take(i + 1).last() == rendered@[i as int]);
        }
        if rendered[i].rendered {
            keep.push(clone_new_mail(&rendered[i].new_mail));
        }
        i += 1;
    }
    proof {
        assert(rendered@.take(n as int) =~= rendered@);
    }
    let persisted = keep.len();
    let render_failures = n - persisted;
    match db.store_new_mails(keep, now) {
        Ok(()) => Ok(IngestReport { persisted, render_failures }),
        Err(e) => Err(e),
    }
}

} // verus!
