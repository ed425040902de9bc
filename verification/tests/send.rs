use mail_mcp::compose::{attachment_name, compose, Draft, FileContent};
use mail_mcp::config::ResolvedAccount;
use mail_mcp::mime::parse_message;
use mail_mcp::send::{after_delivery, after_saving, smtp_send, uses_implicit_tls, Delivery, FileState, Outgoing, SendAction};

fn account(port: u16, limit: usize) -> ResolvedAccount {
    ResolvedAccount {
        imap_host: "imap.x".to_string(),
        imap_port: 993,
        imap_user: "u".to_string(),
        imap_pass: "p".to_string(),
        smtp_host: "smtp.x".to_string(),
        smtp_port: port,
        smtp_user: "su".to_string(),
        smtp_pass: "sp".to_string(),
        smtp_from: "Me <me@example.com>".to_string(),
        smtp_write_enabled: true,
        max_attachment_bytes: limit,
        sent_folder: "Sent".to_string(),
    }
}

fn mail(attachments: &[&str]) -> Outgoing {
    Outgoing {
        to: "you@example.com".to_string(),
        subject: "Hi".to_string(),
        body: "line one\nline two".to_string(),
        in_reply_to: None,
        attachments: attachments.iter().map(|a| a.to_string()).collect(),
    }
}

fn read(bytes: &[u8]) -> FileState {
    FileState { size: Ok(bytes.len() as u64), content: Some(Ok(bytes.to_vec())) }
}

fn delivery(action: SendAction) -> Delivery {
    match action {
        SendAction::Deliver(d) => d,
        SendAction::Fail(e) => panic!("{e}"),
        _ => panic!("not ready"),
    }
}

fn failure(action: SendAction) -> String {
    match action {
        SendAction::Fail(e) => e,
        _ => panic!("no failure"),
    }
}

fn header(raw: &[u8], key: &str) -> Option<String> {
    let part = parse_message(raw).unwrap();
    part.headers.into_iter().find(|h| h.0 == key).map(|h| h.1)
}

#[test]
fn a_plain_message_goes_out() {
    let d = delivery(smtp_send(&account(587, 10), &mail(&[]), &vec![]));
    assert_eq!((d.host.as_str(), d.port, d.user.as_str(), d.pass.as_str()), ("smtp.x", 587, "su", "sp"));
    assert!(!d.implicit_tls);
    assert_eq!(d.raw, d.email.formatted());
    assert_eq!(header(&d.raw, "From").unwrap(), "Me <me@example.com>");
    assert_eq!(header(&d.raw, "To").unwrap(), "you@example.com");
    assert_eq!(header(&d.raw, "Subject").unwrap(), "Hi");
    assert_eq!(header(&d.raw, "In-Reply-To"), None);
    let part = parse_message(&d.raw).unwrap();
    assert_eq!(part.mimetype, "text/plain");
    assert_eq!(part.type_params, vec![("charset".to_string(), "utf-8".to_string())]);
    assert_eq!(part.text.as_deref(), Some("line one\r\nline two"));
}

#[test]
fn addresses_are_written_in_canonical_form() {
    let mut a = account(587, 10);
    a.smtp_from = "  me@example.com ".to_string();
    let mut m = mail(&[]);
    m.to = " <you@example.com>".to_string();
    let d = delivery(smtp_send(&a, &m, &vec![]));
    assert_eq!(header(&d.raw, "From").unwrap(), "me@example.com");
    assert_eq!(header(&d.raw, "To").unwrap(), "you@example.com");
}

#[test]
fn port_465_means_tls_from_the_start() {
    assert!(uses_implicit_tls(465));
    assert!(!uses_implicit_tls(587) && !uses_implicit_tls(25));
    assert!(delivery(smtp_send(&account(465, 10), &mail(&[]), &vec![])).implicit_tls);
    assert!(!delivery(smtp_send(&account(25, 10), &mail(&[]), &vec![])).implicit_tls);
}

#[test]
fn a_reply_names_its_message() {
    let mut m = mail(&[]);
    m.in_reply_to = Some("<1@x>".to_string());
    let d = delivery(smtp_send(&account(587, 10), &m, &vec![]));
    assert_eq!(header(&d.raw, "In-Reply-To").unwrap(), "<1@x>");
}

#[test]
fn bad_addresses_are_refused_first() {
    let mut m = mail(&["a.txt"]);
    m.to = "nobody".to_string();
    let e = failure(smtp_send(&account(587, 10), &m, &vec![]));
    assert_eq!(e, "nobody".parse::<lettre::message::Mailbox>().err().unwrap().to_string());
    let mut a = account(587, 10);
    a.smtp_from = "x y z".to_string();
    assert_eq!(failure(smtp_send(&a, &mail(&[]), &vec![])), "x y z".parse::<lettre::message::Mailbox>().err().unwrap().to_string());
}

#[test]
fn files_are_inspected_then_read() {
    let a = account(587, 10);
    let m = mail(&["d/a.txt", "b.png"]);
    assert!(matches!(smtp_send(&a, &m, &vec![]), SendAction::Inspect(p) if p == "d/a.txt"));
    let inspected = FileState { size: Ok(3), content: None };
    assert!(matches!(smtp_send(&a, &m, &vec![inspected]), SendAction::Read(p) if p == "d/a.txt"));
    assert!(matches!(smtp_send(&a, &m, &vec![read(b"abc")]), SendAction::Inspect(p) if p == "b.png"));
    let d = delivery(smtp_send(&a, &m, &vec![read(b"abc"), read(&[0, 1, 255])]));
    let part = parse_message(&d.raw).unwrap();
    assert_eq!(part.mimetype, "multipart/mixed");
    assert_eq!(part.subparts.len(), 3);
    assert_eq!(part.subparts[0].text.as_deref(), Some("line one\r\nline two"));
    assert!(part.subparts[1].attachment);
    assert_eq!(part.subparts[1].disposition_params, vec![("filename".to_string(), "a.txt".to_string())]);
    assert_eq!(part.subparts[1].mimetype, "text/plain");
    assert_eq!(part.subparts[2].mimetype, "image/png");
    assert_eq!(part.subparts[2].disposition_params, vec![("filename".to_string(), "b.png".to_string())]);
    assert_eq!(part.subparts[2].content, Ok(vec![0, 1, 255]));
}

#[test]
fn oversized_files_never_go_out() {
    let a = account(587, 10);
    let m = mail(&["f"]);
    let big = FileState { size: Ok(11), content: None };
    assert_eq!(failure(smtp_send(&a, &m, &vec![big])), "attachment f is 11 bytes, exceeding the 10 byte limit");
    let grown = FileState { size: Ok(10), content: Some(Ok(vec![0; 11])) };
    assert_eq!(failure(smtp_send(&a, &m, &vec![grown])), "attachment f exceeds the 10 byte limit");
    delivery(smtp_send(&a, &m, &vec![read(&[0; 10])]));
}

#[test]
fn unreadable_files_are_reported() {
    let a = account(587, 10);
    let m = mail(&["f"]);
    let missing = FileState { size: Err("gone".to_string()), content: None };
    assert_eq!(failure(smtp_send(&a, &m, &vec![missing])), "cannot inspect attachment f: gone");
    let locked = FileState { size: Ok(1), content: Some(Err("locked".to_string())) };
    assert_eq!(failure(smtp_send(&a, &m, &vec![locked])), "cannot read attachment f: locked");
}

#[test]
fn attached_files_have_names() {
    assert_eq!(attachment_name("/a/b.txt"), "b.txt");
    assert_eq!(attachment_name("/"), "attachment.bin");
    assert_eq!(attachment_name("a/.."), "attachment.bin");
}

#[test]
fn types_go_by_extension() {
    for (path, expected) in [("a.PDF", "application/pdf"), ("noext", "application/octet-stream"), ("x.html", "text/html")] {
        let draft = Draft {
            from: "a@b.c".to_string(),
            to: "d@e.f".to_string(),
            subject: String::new(),
            body: String::new(),
            in_reply_to: None,
            files: vec![FileContent { path: path.to_string(), bytes: vec![1] }],
        };
        let part = parse_message(&compose(draft).unwrap().formatted()).unwrap();
        assert_eq!(part.subparts[1].mimetype, expected);
    }
}

#[test]
fn a_copy_is_saved_only_after_delivery() {
    let a = account(587, 10);
    let copy = after_delivery(&a, vec![1, 2], Ok(())).unwrap();
    assert_eq!((copy.folder.as_str(), copy.raw), ("Sent", vec![1, 2]));
    assert_eq!(after_delivery(&a, vec![1], Err("rejected".to_string())).err().unwrap(), "rejected");
}

#[test]
fn a_copy_that_cannot_be_saved_is_a_warning() {
    assert_eq!(after_saving("you@x", "Sent", Ok(())), "sent to you@x and saved to Sent");
    assert_eq!(
        after_saving("you@x", "Sent", Err("full".to_string())),
        "sent to you@x; warning: could not save a copy to Sent: full"
    );
}
