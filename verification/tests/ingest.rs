use mail_telegram_core::db::{MailsDB, NewMail};
use mail_telegram_core::gmail::{
    extract_gmail_message_data, extract_new_messages, gmail_search_query, new_message_ids,
    store_rendered_mails, ExtractError, FetchOutcome, GmailHeader, GmailMessage, GmailPart,
    GmailPartBody, GmailPayload, MessageSummary, RenderedMail, GMAIL_MESSAGES_LIMIT,
};
use mail_telegram_core::pdf::get_pdf_path_by_id;

fn nm(id: &str, ts: u64) -> NewMail {
    NewMail {
        from: String::new(),
        message_id: id.to_string(),
        timestamp: ts,
        subject: String::new(),
    }
}

fn header(name: &str, value: &str) -> GmailHeader {
    GmailHeader {
        name: Some(name.to_string()),
        value: Some(value.to_string()),
    }
}

fn full_message(id: &str, ts: u64, from: &str, subject: &str, html: &[u8]) -> GmailMessage {
    GmailMessage {
        id: Some(id.to_string()),
        internal_date: Some(ts),
        payload: Some(GmailPayload {
            headers: Some(vec![header("From", from), header("Subject", subject)]),
            parts: Some(vec![
                GmailPart { body: None },
                GmailPart {
                    body: Some(GmailPartBody {
                        data: Some(html.to_vec()),
                    }),
                },
            ]),
        }),
    }
}

#[test]
fn ingest_query_without_watermark() {
    assert_eq!(gmail_search_query(None), "is:unread");
}

#[test]
fn ingest_query_with_watermark() {
    // epoch-millis are cut down to whole seconds for the provider filter
    assert_eq!(
        gmail_search_query(Some(1700000123456)),
        "is:unread after:1700000123"
    );
    assert_eq!(gmail_search_query(Some(999)), "is:unread after:0");
    assert_eq!(gmail_search_query(Some(10000)), "is:unread after:10");
}

#[test]
fn ingest_listing_cap_is_bounded() {
    assert_eq!(GMAIL_MESSAGES_LIMIT, 30);
}

#[test]
fn ingest_gate_drops_known_and_repeated_ids() {
    let mut db = MailsDB::new();
    db.store_new_mails(vec![nm("m1", 1)], 0).unwrap();
    let summaries = vec![
        MessageSummary { id: "m1".to_string() },
        MessageSummary { id: "m2".to_string() },
        MessageSummary { id: "m2".to_string() },
        MessageSummary { id: "m3".to_string() },
    ];
    let plan = new_message_ids(&db, &summaries);
    assert_eq!(plan, vec!["m2".to_string(), "m3".to_string()]);
}

#[test]
fn ingest_gate_open_on_empty_store() {
    let db = MailsDB::new();
    let summaries = vec![
        MessageSummary { id: "m1".to_string() },
        MessageSummary { id: "m2".to_string() },
    ];
    let plan = new_message_ids(&db, &summaries);
    assert_eq!(plan, vec!["m1".to_string(), "m2".to_string()]);
}

#[test]
fn ingest_extract_full_message() {
    let e = extract_gmail_message_data(full_message("m1", 42, "a@b.c", "hello", b"<html>"))
        .unwrap();
    assert_eq!(e.new_mail.message_id, "m1");
    assert_eq!(e.new_mail.timestamp, 42);
    assert_eq!(e.new_mail.from, "a@b.c");
    assert_eq!(e.new_mail.subject, "hello");
    assert_eq!(e.html, b"<html>".to_vec());
}

#[test]
fn ingest_extract_missing_html() {
    let mut m = full_message("m1", 42, "a@b.c", "hello", b"x");
    m.payload = None;
    assert!(matches!(
        extract_gmail_message_data(m),
        Err(ExtractError::MissingHtml)
    ));
    // only one part: the html alternative at index 1 is absent
    let mut m = full_message("m1", 42, "a@b.c", "hello", b"x");
    if let Some(p) = m.payload.as_mut() {
        p.parts.as_mut().unwrap().truncate(1);
    }
    assert!(matches!(
        extract_gmail_message_data(m),
        Err(ExtractError::MissingHtml)
    ));
}

#[test]
fn ingest_extract_missing_id_and_timestamp() {
    let mut m = full_message("m1", 42, "a@b.c", "hello", b"x");
    m.id = None;
    assert!(matches!(
        extract_gmail_message_data(m),
        Err(ExtractError::MissingId)
    ));
    let mut m = full_message("m1", 42, "a@b.c", "hello", b"x");
    m.internal_date = None;
    assert!(matches!(
        extract_gmail_message_data(m),
        Err(ExtractError::MissingTimestamp)
    ));
}

#[test]
fn ingest_extract_headers_default_to_empty() {
    let mut m = full_message("m1", 42, "a@b.c", "hello", b"x");
    if let Some(p) = m.payload.as_mut() {
        p.headers = None;
    }
    let e = extract_gmail_message_data(m).unwrap();
    assert_eq!(e.new_mail.from, "");
    assert_eq!(e.new_mail.subject, "");
}

#[test]
fn ingest_extract_takes_first_matching_header() {
    let mut m = full_message("m1", 42, "first@x", "s", b"x");
    if let Some(p) = m.payload.as_mut() {
        p.headers.as_mut().unwrap().push(header("From", "second@x"));
        // a matching header whose value is absent yields the default
        p.headers.as_mut().unwrap().insert(
            0,
            GmailHeader {
                name: Some("Subject".to_string()),
                value: None,
            },
        );
    }
    let e = extract_gmail_message_data(m).unwrap();
    assert_eq!(e.new_mail.from, "first@x");
    assert_eq!(e.new_mail.subject, "");
}

#[test]
fn ingest_batch_skips_failed_fetch() {
    let fetched = vec![
        FetchOutcome {
            id: "m1".to_string(),
            message: Some(full_message("m1", 1, "a", "s1", b"h1")),
        },
        FetchOutcome {
            id: "m2".to_string(),
            message: None,
        },
        FetchOutcome {
            id: "m3".to_string(),
            message: Some(full_message("m3", 3, "c", "s3", b"h3")),
        },
    ];
    let (extracted, skipped) = extract_new_messages(fetched);
    assert_eq!(extracted.len(), 2);
    assert_eq!(extracted[0].new_mail.message_id, "m1");
    assert_eq!(extracted[1].new_mail.message_id, "m3");
    assert_eq!(skipped, vec!["m2".to_string()]);
}

#[test]
fn ingest_partial_failure_isolated() {
    // three new candidates, the fetch of the second fails: the first and the
    // third are persisted and exactly one skip is reported
    let mut db = MailsDB::new();
    let fetched = vec![
        FetchOutcome {
            id: "m1".to_string(),
            message: Some(full_message("m1", 1, "a", "s1", b"h1")),
        },
        FetchOutcome {
            id: "m2".to_string(),
            message: None,
        },
        FetchOutcome {
            id: "m3".to_string(),
            message: Some(full_message("m3", 3, "c", "s3", b"h3")),
        },
    ];
    let (extracted, skipped) = extract_new_messages(fetched);
    assert_eq!(skipped.len(), 1);
    let rendered: Vec<RenderedMail> = extracted
        .into_iter()
        .map(|e| RenderedMail {
            new_mail: e.new_mail,
            rendered: true,
        })
        .collect();
    let report = store_rendered_mails(&mut db, rendered, 0).unwrap();
    assert_eq!(report.persisted, 2);
    assert_eq!(report.render_failures, 0);
    assert!(db.check_existing_mail(&"m1".to_string()).is_some());
    assert!(db.check_existing_mail(&"m2".to_string()).is_none());
    assert!(db.check_existing_mail(&"m3".to_string()).is_some());
}

#[test]
fn ingest_render_failure_not_persisted() {
    let mut db = MailsDB::new();
    let rendered = vec![
        RenderedMail {
            new_mail: nm("m1", 1),
            rendered: true,
        },
        RenderedMail {
            new_mail: nm("m2", 2),
            rendered: false,
        },
    ];
    let report = store_rendered_mails(&mut db, rendered, 0).unwrap();
    assert_eq!(report.persisted, 1);
    assert_eq!(report.render_failures, 1);
    assert!(db.check_existing_mail(&"m1".to_string()).is_some());
    // the record stays unknown, so the next run will fetch and render it again
    assert!(db.check_existing_mail(&"m2".to_string()).is_none());
}

#[test]
fn ingest_twice_does_not_grow_store() {
    let mut db = MailsDB::new();
    let summaries = vec![
        MessageSummary { id: "m1".to_string() },
        MessageSummary { id: "m2".to_string() },
    ];
    let run = |db: &mut MailsDB| {
        let plan = new_message_ids(db, &summaries);
        let fetched: Vec<FetchOutcome> = plan
            .into_iter()
            .map(|id| {
                let msg = full_message(&id, 100, "a@b.c", "s", b"h");
                FetchOutcome { id, message: Some(msg) }
            })
            .collect();
        let (extracted, skipped) = extract_new_messages(fetched);
        assert_eq!(skipped.len(), 0);
        let rendered: Vec<RenderedMail> = extracted
            .into_iter()
            .map(|e| RenderedMail {
                new_mail: e.new_mail,
                rendered: true,
            })
            .collect();
        store_rendered_mails(db, rendered, 0).unwrap()
    };
    let first = run(&mut db);
    assert_eq!(first.persisted, 2);
    assert_eq!(db.fetch_unsent_mails().len(), 2);
    // an unchanged mailbox listing adds nothing the second time around
    let second = run(&mut db);
    assert_eq!(second.persisted, 0);
    assert_eq!(db.fetch_unsent_mails().len(), 2);
}

#[test]
fn ingest_artifact_path_is_deterministic() {
    assert_eq!(
        get_pdf_path_by_id(&"abc123".to_string()),
        "temp-mails/mail-abc123.pdf"
    );
    assert_eq!(get_pdf_path_by_id(&"".to_string()), "temp-mails/mail-.pdf");
}
