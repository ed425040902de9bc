use mail_mcp::attachment::AttachmentInfo;
use mail_mcp::email::EmailSummary;
use mail_mcp::mailbox::{AttachmentList, Download, Listing, ReadEmail};
use mail_mcp::report::{show_attachments, show_download, show_email, show_listing};

fn email(uid: u32) -> EmailSummary {
    EmailSummary { uid, from: "a@b".to_string(), subject: "\"s\"".to_string(), date: "d".to_string() }
}

#[test]
fn an_empty_list_is_one_line() {
    let listing = Listing { folder: "INBOX".to_string(), query: None, total: 0, emails: vec![] };
    assert_eq!(show_listing(&listing), "{\"emails\":[],\"folder\":\"INBOX\",\"total\":0}");
    let listing = Listing { folder: "INBOX".to_string(), query: Some("q".to_string()), total: 0, emails: vec![] };
    assert_eq!(show_listing(&listing), "{\"emails\":[],\"folder\":\"INBOX\",\"query\":\"q\",\"total\":0}");
}

#[test]
fn a_list_shows_every_message() {
    let listing = Listing { folder: "A".to_string(), query: Some("q".to_string()), total: 7, emails: vec![email(2), email(1)] };
    let text = show_listing(&listing);
    let value: serde_json::Value = serde_json::from_str(&text).unwrap();
    assert_eq!(text, serde_json::to_string_pretty(&value).unwrap());
    assert_eq!((value["folder"].as_str(), value["query"].as_str(), value["total"].as_u64()), (Some("A"), Some("q"), Some(7)));
    assert_eq!(value["emails"].as_array().unwrap().len(), 2);
    assert_eq!(value["emails"][0]["uid"].as_u64(), Some(2));
    assert_eq!(value["emails"][1]["subject"].as_str(), Some("\"s\""));
    assert_eq!(value["emails"][1].as_object().unwrap().len(), 4);
    assert_eq!(value.as_object().unwrap().len(), 4);
}

#[test]
fn a_message_shows_headers_and_body() {
    let text = show_email(&ReadEmail { folder: "A".to_string(), uid: 3, headers: "h".to_string(), body: "b\n".to_string() });
    assert_eq!(text, "{\n  \"body\": \"b\\n\",\n  \"folder\": \"A\",\n  \"headers\": \"h\",\n  \"uid\": 3\n}");
}

#[test]
fn attachments_show_number_name_type_and_size() {
    let info = AttachmentInfo { index: 0, filename: "f".to_string(), mime: "m/n".to_string(), size: 5 };
    let text = show_attachments(&AttachmentList { folder: "A".to_string(), uid: 3, attachments: vec![info] });
    let value: serde_json::Value = serde_json::from_str(&text).unwrap();
    assert_eq!(text, serde_json::to_string_pretty(&value).unwrap());
    let a = &value["attachments"][0];
    assert_eq!((a["index"].as_u64(), a["filename"].as_str(), a["mime"].as_str(), a["size"].as_u64()), (Some(0), Some("f"), Some("m/n"), Some(5)));
    assert_eq!((value["folder"].as_str(), value["uid"].as_u64()), (Some("A"), Some(3)));
}

#[test]
fn a_saved_attachment_shows_its_path() {
    let file = Download {
        folder: "A".to_string(),
        uid: 3,
        filename: "f".to_string(),
        mime: "m/n".to_string(),
        size: 2,
        out_dir: "o".to_string(),
        path: "o/x".to_string(),
        bytes: vec![1, 2],
    };
    let value: serde_json::Value = serde_json::from_str(&show_download(&file)).unwrap();
    assert_eq!((value["path"].as_str(), value["size"].as_u64(), value["mime"].as_str()), (Some("o/x"), Some(2), Some("m/n")));
    assert_eq!(value.as_object().unwrap().len(), 6);
}
