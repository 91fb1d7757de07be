use mail_telegram_core::db::{Mail, MailsDB, NewMail, StoreError};

fn nm(id: &str, ts: u64) -> NewMail {
    NewMail {
        from: format!("{}@example.com", id),
        message_id: id.to_string(),
        timestamp: ts,
        subject: format!("subject {}", id),
    }
}

#[test]
fn store_watermark_empty() {
    let db = MailsDB::new();
    assert_eq!(db.fetch_latest_timestamp(), None);
}

#[test]
fn store_watermark_is_maximum() {
    let mut db = MailsDB::new();
    db.store_new_mails(vec![nm("m1", 5), nm("m2", 9), nm("m3", 2)], 1000)
        .unwrap();
    assert_eq!(db.fetch_latest_timestamp(), Some(9));
}

#[test]
fn store_insert_sets_fields() {
    let mut db = MailsDB::new();
    db.store_new_mails(vec![nm("m1", 5)], 777).unwrap();
    let m = db.check_existing_mail(&"m1".to_string()).unwrap();
    assert_eq!(m.message_id, "m1");
    assert_eq!(m.timestamp, 5);
    assert_eq!(m.from, "m1@example.com");
    assert_eq!(m.subject, "subject m1");
    assert!(!m.sent_on_telegram);
    assert_eq!(m.created_at, 777);
}

#[test]
fn store_duplicate_within_batch_rejected() {
    let mut db = MailsDB::new();
    let r = db.store_new_mails(vec![nm("m1", 1), nm("m1", 2)], 0);
    assert!(matches!(r, Err(StoreError::DuplicateMessageId(ref s)) if s == "m1"));
    assert_eq!(db.fetch_unsent_mails().len(), 0);
}

#[test]
fn store_duplicate_against_store_rejected() {
    let mut db = MailsDB::new();
    db.store_new_mails(vec![nm("m1", 1)], 0).unwrap();
    let r = db.store_new_mails(vec![nm("m2", 2), nm("m1", 3)], 0);
    assert!(matches!(r, Err(StoreError::DuplicateMessageId(ref s)) if s == "m1"));
    // the failed batch stored nothing, not even its fresh id
    assert_eq!(db.fetch_unsent_mails().len(), 1);
    assert!(db.check_existing_mail(&"m2".to_string()).is_none());
}

#[test]
fn store_lookup_by_message_id() {
    let mut db = MailsDB::new();
    db.store_new_mails(vec![nm("m1", 1), nm("m2", 2)], 0).unwrap();
    assert!(db.check_existing_mail(&"m1".to_string()).is_some());
    assert!(db.check_existing_mail(&"zzz".to_string()).is_none());
}

#[test]
fn store_find_by_message_ids() {
    let mut db = MailsDB::new();
    db.store_new_mails(vec![nm("m1", 1), nm("m2", 2), nm("m3", 3)], 0)
        .unwrap();
    let found = db.find_mails_by_message_ids(&vec!["m2".to_string(), "zzz".to_string()]);
    assert_eq!(found.len(), 1);
    assert_eq!(found[0].message_id, "m2");
}

#[test]
fn store_unsent_sorted_by_timestamp() {
    let mut db = MailsDB::new();
    db.store_new_mails(vec![nm("m1", 3), nm("m2", 1), nm("m3", 2)], 0)
        .unwrap();
    let unsent = db.fetch_unsent_mails();
    let ids: Vec<&str> = unsent.iter().map(|m| m.message_id.as_str()).collect();
    assert_eq!(ids, vec!["m2", "m3", "m1"]);
    assert_eq!(unsent[0].timestamp, 1);
    assert_eq!(unsent[1].timestamp, 2);
    assert_eq!(unsent[2].timestamp, 3);
}

#[test]
fn store_mark_sent_is_monotone() {
    let mut db = MailsDB::new();
    db.store_new_mails(vec![nm("m1", 1), nm("m2", 2)], 0).unwrap();
    let unsent = db.fetch_unsent_mails();
    let first_id = unsent[0].id;
    db.update_mails_as_sent(&vec![first_id]).unwrap();
    assert!(db.check_existing_mail(&"m1".to_string()).unwrap().sent_on_telegram);
    assert!(!db.check_existing_mail(&"m2".to_string()).unwrap().sent_on_telegram);
    // marking again, or marking an unknown id, never clears the flag
    db.update_mails_as_sent(&vec![first_id, 424242]).unwrap();
    assert!(db.check_existing_mail(&"m1".to_string()).unwrap().sent_on_telegram);
    let unsent_after = db.fetch_unsent_mails();
    assert_eq!(unsent_after.len(), 1);
    assert_eq!(unsent_after[0].message_id, "m2");
}

#[test]
fn store_rebuild_from_records() {
    let rows = vec![
        Mail {
            id: 7,
            message_id: "m1".to_string(),
            timestamp: 5,
            from: "a@example.com".to_string(),
            subject: "s1".to_string(),
            sent_on_telegram: true,
            created_at: 100,
        },
        Mail {
            id: 3,
            message_id: "m2".to_string(),
            timestamp: 9,
            from: "b@example.com".to_string(),
            subject: "s2".to_string(),
            sent_on_telegram: false,
            created_at: 101,
        },
    ];
    let db = MailsDB::from_records(rows).unwrap();
    assert_eq!(db.fetch_latest_timestamp(), Some(9));
    let unsent = db.fetch_unsent_mails();
    assert_eq!(unsent.len(), 1);
    assert_eq!(unsent[0].message_id, "m2");
}

#[test]
fn store_rebuild_rejects_duplicate_ids() {
    let row = |id: u64, mid: &str| Mail {
        id,
        message_id: mid.to_string(),
        timestamp: 0,
        from: String::new(),
        subject: String::new(),
        sent_on_telegram: false,
        created_at: 0,
    };
    let r = MailsDB::from_records(vec![row(1, "m1"), row(1, "m2")]);
    assert!(matches!(r, Err(StoreError::DuplicateId(1))));
    let r = MailsDB::from_records(vec![row(1, "m1"), row(2, "m1")]);
    assert!(matches!(r, Err(StoreError::DuplicateMessageId(ref s)) if s == "m1"));
}
