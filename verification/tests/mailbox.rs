use mail_mcp::mailbox::{
    do_download_attachment, do_fetch_thread_headers, do_list, do_list_attachments, do_read, do_search,
    thread_of, Fetched, Listing, MailboxStep,
};

fn header(uid: Option<u32>, subject: &str) -> Fetched {
    Fetched { uid, data: Some(format!("Subject: {subject}\r\n\r\n").into_bytes()) }
}

fn done<T>(step: MailboxStep<T>) -> T {
    match step {
        MailboxStep::Done(t) => t,
        _ => panic!("not done"),
    }
}

fn fetch<T>(step: MailboxStep<T>) -> (String, String) {
    match step {
        MailboxStep::Fetch { uids, items } => (uids, items),
        _ => panic!("no fetch"),
    }
}

fn uids(listing: &Listing) -> Vec<u32> {
    listing.emails.iter().map(|e| e.uid).collect()
}

#[test]
fn listing_searches_everything_first() {
    match do_list("INBOX", 10, &None, &None) {
        MailboxStep::Search(command) => assert_eq!(command, "ALL"),
        _ => panic!("no search"),
    }
}

#[test]
fn the_newest_are_asked_for() {
    let found = Some(vec![3, 9, 1, 12, 7]);
    assert_eq!(fetch(do_list("INBOX", 3, &found, &None)), ("12,9,7".to_string(), "RFC822.HEADER".to_string()));
    assert_eq!(fetch(do_list("INBOX", 0, &found, &None)).0, "12");
    let many: Vec<u32> = (1..=200).rev().collect();
    let set = fetch(do_list("INBOX", 1000, &Some(many), &None)).0;
    assert_eq!(set.split(',').count(), 50);
    assert!(set.starts_with("200,199,"));
    assert!(set.ends_with(",151"));
}

#[test]
fn an_empty_folder_needs_no_fetch() {
    let listing = done(do_list("INBOX", 10, &Some(vec![]), &None));
    assert_eq!((listing.total, listing.emails.len(), listing.folder.as_str()), (0, 0, "INBOX"));
    assert!(listing.query.is_none());
}

#[test]
fn replies_are_put_in_order() {
    let replies = Some(vec![
        header(Some(5), "five"),
        header(Some(9), "nine a"),
        Fetched { uid: Some(8), data: None },
        header(None, "none"),
        header(Some(9), "nine b"),
    ]);
    let listing = done(do_list("Archive", 10, &Some(vec![5, 8, 9]), &replies));
    assert_eq!(uids(&listing), vec![9, 9, 5, 0]);
    assert_eq!(listing.emails[0].subject, "nine a");
    assert_eq!(listing.emails[1].subject, "nine b");
    assert_eq!(listing.emails[3].subject, "none");
    assert_eq!((listing.total, listing.folder.as_str()), (3, "Archive"));
}

#[test]
fn a_query_adds_no_quotes() {
    match do_search("INBOX", "say \"hi\"", 10, &None, &None) {
        MailboxStep::Search(command) => assert_eq!(command, "TEXT \"say 'hi'\""),
        _ => panic!("no search"),
    }
    let listing = done(do_search("INBOX", "say \"hi\"", 10, &Some(vec![]), &None));
    assert_eq!(listing.query.as_deref(), Some("say \"hi\""));
    assert_eq!(fetch(do_search("INBOX", "q", 10, &Some(vec![2, 3]), &None)).0, "3,2");
}

#[test]
fn reading_fetches_the_message() {
    assert_eq!(fetch(do_read("INBOX", 42, &None)), ("42".to_string(), "RFC822".to_string()));
    let reply = Some(vec![Fetched { uid: Some(43), data: Some(b"From: a@b\r\n\r\nbody".to_vec()) }]);
    let email = done(do_read("INBOX", 42, &reply)).unwrap();
    assert_eq!((email.uid, email.headers.as_str(), email.body.as_str()), (43, "From: a@b", "body"));
    let unnumbered = Some(vec![Fetched { uid: None, data: Some(b"\r\nx".to_vec()) }]);
    assert_eq!(done(do_read("INBOX", 42, &unnumbered)).unwrap().uid, 42);
}

#[test]
fn a_missing_message_is_an_error() {
    let none = Some(vec![]);
    let empty = Some(vec![Fetched { uid: Some(1), data: None }]);
    assert_eq!(done(do_read("A", 1, &none)).err().unwrap(), "message UID 1 not found in A");
    assert_eq!(done(do_read("A", 1, &empty)).err().unwrap(), "empty body");
    assert_eq!(done(do_list_attachments("A", 1, &none)).err().unwrap(), "message UID 1 not found in A");
    assert_eq!(done(do_list_attachments("A", 1, &empty)).err().unwrap(), "empty body");
    assert_eq!(done(do_download_attachment("A", 1, 0, "d", 1, &none)).err().unwrap(), "message UID 1 not found in A");
    assert_eq!(done(do_download_attachment("A", 1, 0, "d", 1, &empty)).err().unwrap(), "empty body");
    assert_eq!(done(do_fetch_thread_headers(1, &none)).err().unwrap(), "message UID 1 not found");
    assert_eq!(done(do_fetch_thread_headers(1, &empty)).err().unwrap(), "empty header");
}

#[test]
fn attachments_are_listed_and_downloaded() {
    let raw = b"Content-Type: image/png\r\nContent-Disposition: attachment; filename=\"../x.png\"\r\nContent-Transfer-Encoding: base64\r\n\r\nAQID\r\n".to_vec();
    let reply = Some(vec![Fetched { uid: Some(6), data: Some(raw) }]);
    assert_eq!(fetch(do_list_attachments("INBOX", 6, &None)).1, "RFC822");
    assert_eq!(fetch(do_download_attachment("INBOX", 6, 0, "out", 3, &None)).0, "6");
    let list = done(do_list_attachments("INBOX", 6, &reply)).unwrap();
    assert_eq!((list.uid, list.attachments.len(), list.attachments[0].size), (6, 1, 3));
    let file = done(do_download_attachment("INBOX", 6, 0, "out", 3, &reply)).unwrap();
    assert_eq!((file.path.as_str(), file.filename.as_str(), file.mime.as_str()), ("out/uid6-0-x.png", "../x.png", "image/png"));
    assert_eq!((file.size, file.bytes, file.out_dir.as_str()), (3, vec![1, 2, 3], "out"));
    let e = done(do_download_attachment("INBOX", 6, 0, "out", 2, &reply)).err().unwrap();
    assert_eq!(e, "attachment index 0 is 3 bytes, exceeding the 2 byte limit");
}

#[test]
fn thread_headers_are_found() {
    assert_eq!(fetch(do_fetch_thread_headers(5, &None)), ("5".to_string(), "RFC822.HEADER".to_string()));
    let raw = b"message-id: <1@x>\r\nFrom: A <a@b.c>\r\nSubject: hey\r\n\r\n".to_vec();
    let t = done(do_fetch_thread_headers(5, &Some(vec![Fetched { uid: None, data: Some(raw) }]))).unwrap();
    assert_eq!((t.message_id.as_str(), t.from.as_str(), t.subject.as_str()), ("<1@x>", "A <a@b.c>", "hey"));
    let none = thread_of(&vec![("X".to_string(), "y".to_string())]);
    assert_eq!((none.message_id.as_str(), none.from.as_str(), none.subject.as_str()), ("", "", ""));
    let bad = Some(vec![Fetched { uid: None, data: Some(b" overhanging: x".to_vec()) }]);
    assert!(done(do_fetch_thread_headers(5, &bad)).is_err());
}
