use mail_mcp::config::ResolvedAccount;
use mail_mcp::mailbox::ThreadHeaders;
use mail_mcp::tools::{
    DownloadAttachmentParams, ListAttachmentsParams, ListParams, MailMcp, ReadParams, ReplyParams,
    SearchParams, SendParams, ToolError,
};

fn tools(write: bool) -> MailMcp {
    MailMcp::new(ResolvedAccount {
        imap_host: "imap.x".to_string(),
        imap_port: 993,
        imap_user: "u".to_string(),
        imap_pass: "p".to_string(),
        smtp_host: "smtp.x".to_string(),
        smtp_port: 465,
        smtp_user: "su".to_string(),
        smtp_pass: "sp".to_string(),
        smtp_from: "me@example.com".to_string(),
        smtp_write_enabled: write,
        max_attachment_bytes: 1000,
        sent_folder: "Sent".to_string(),
    })
}

fn internal<T>(r: Result<T, ToolError>) -> String {
    match r {
        Err(ToolError::Internal(e)) => e,
        _ => panic!("no internal error"),
    }
}

fn text(s: &str) -> Option<String> {
    Some(s.to_string())
}

#[test]
fn requests_have_defaults() {
    let t = tools(false);
    let r = t.list_emails(&ListParams { folder: None, limit: None });
    assert_eq!((r.folder.as_str(), r.limit), ("INBOX", 10));
    let r = t.list_emails(&ListParams { folder: text("A"), limit: Some(0) });
    assert_eq!((r.folder.as_str(), r.limit), ("A", 0));
    let r = t.search_emails(&SearchParams { query: " q ".to_string(), folder: None, limit: None }).unwrap();
    assert_eq!((r.folder.as_str(), r.query.as_str(), r.limit), ("INBOX", " q ", 10));
    let r = t.read_email(&ReadParams { uid: 4, folder: None });
    assert_eq!((r.folder.as_str(), r.uid), ("INBOX", 4));
    let r = t.list_attachments(&ListAttachmentsParams { uid: 5, folder: text("B") });
    assert_eq!((r.folder.as_str(), r.uid), ("B", 5));
    let r = t.download_attachment(&DownloadAttachmentParams { uid: 6, index: 1, folder: None, out_dir: None });
    assert_eq!((r.folder.as_str(), r.uid, r.index, r.out_dir.as_str()), ("INBOX", 6, 1, "attachments"));
}

#[test]
fn a_blank_query_is_refused() {
    for query in ["", " ", "\t\n"] {
        match tools(true).search_emails(&SearchParams { query: query.to_string(), folder: None, limit: None }) {
            Err(ToolError::InvalidParams(e)) => assert_eq!(e, "query must be non-empty"),
            _ => panic!("not refused"),
        }
    }
}

#[test]
fn outbound_mail_must_be_enabled() {
    let send = SendParams { to: "t".to_string(), subject: "s".to_string(), body: "b".to_string(), attachments: None };
    assert_eq!(
        internal(tools(false).send_email(send)),
        "outbound mail is disabled; set MAIL_SMTP_WRITE_ENABLED=true to enable sending"
    );
    let reply = ReplyParams { uid: 1, body: "b".to_string(), folder: None };
    let refused = "outbound mail is disabled; set MAIL_SMTP_WRITE_ENABLED=true to enable replies";
    assert_eq!(internal(tools(false).reply_email(&reply)), refused);
    let thread = ThreadHeaders { message_id: String::new(), from: "a@b.c".to_string(), subject: String::new() };
    assert_eq!(internal(tools(false).reply_to_thread(&reply, Ok(thread))), refused);
}

#[test]
fn mail_is_sent_as_asked() {
    let send = SendParams { to: "t".to_string(), subject: "s".to_string(), body: "b".to_string(), attachments: Some(vec!["f".to_string()]) };
    let m = tools(true).send_email(send).unwrap();
    assert_eq!((m.to.as_str(), m.subject.as_str(), m.body.as_str()), ("t", "s", "b"));
    assert_eq!(m.attachments, vec!["f".to_string()]);
    assert!(m.in_reply_to.is_none());
}

#[test]
fn a_reply_takes_two_steps() {
    let t = tools(true);
    let p = ReplyParams { uid: 9, body: "b".to_string(), folder: text("A") };
    let r = t.reply_email(&p).unwrap();
    assert_eq!((r.folder.as_str(), r.uid), ("A", 9));
    let thread = ThreadHeaders { message_id: "<1>".to_string(), from: "X <a@b.c>".to_string(), subject: "s".to_string() };
    let m = t.reply_to_thread(&p, Ok(thread)).unwrap();
    assert_eq!((m.to.as_str(), m.subject.as_str()), ("a@b.c", "Re: s"));
    assert_eq!(internal(t.reply_to_thread(&p, Err("gone".to_string()))), "gone");
}

#[test]
fn the_banner_shows_the_setup() {
    assert_eq!(tools(false).banner(), "mail_mcp: IMAP imap.x:993 SMTP smtp.x:465 (outbound mail: disabled, attachment limit: 1000 bytes)");
    assert!(tools(true).banner().contains("(outbound mail: enabled,"));
}
