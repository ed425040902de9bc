use mail_mcp::attachment::{
    collect_attachments, download, download_parsed, list_parsed, save_path, walk_attachments,
};
use mail_mcp::mime::MailPart;

fn part(mimetype: &str, attachment: bool, filename: Option<&str>, content: Result<Vec<u8>, String>) -> MailPart {
    MailPart {
        headers: vec![],
        mimetype: mimetype.to_string(),
        type_params: vec![],
        attachment,
        disposition_params: filename.map(|f| ("filename".to_string(), f.to_string())).into_iter().collect(),
        text: None,
        content,
        subparts: vec![],
    }
}

fn message(subparts: Vec<MailPart>) -> MailPart {
    let mut m = part("multipart/mixed", true, Some("ignored"), Ok(vec![]));
    m.subparts = subparts;
    m
}

fn two_files() -> MailPart {
    message(vec![
        part("text/plain", false, None, Ok(b"hello".to_vec())),
        part("image/png", true, Some("a.png"), Ok(vec![1, 2, 3])),
        message(vec![part("application/pdf", true, None, Ok(vec![9; 10]))]),
    ])
}

#[test]
fn attachments_are_listed_in_order() {
    let list = list_parsed(Ok(two_files())).unwrap();
    let seen: Vec<(u32, &str, &str, usize)> =
        list.iter().map(|a| (a.index, a.filename.as_str(), a.mime.as_str(), a.size)).collect();
    assert_eq!(seen, vec![(0, "a.png", "image/png", 3), (1, "attachment-1.bin", "application/pdf", 10)]);
}

#[test]
fn the_name_of_the_content_type_counts_too() {
    let mut p = part("text/plain", false, None, Ok(vec![]));
    p.type_params = vec![("name".to_string(), "n.txt".to_string())];
    let list = list_parsed(Ok(p)).unwrap();
    assert_eq!(list[0].filename, "n.txt");
    let mut q = part("text/plain", false, Some(""), Ok(vec![]));
    q.type_params = vec![("name".to_string(), "n.txt".to_string())];
    assert!(list_parsed(Ok(q)).unwrap().is_empty());
}

#[test]
fn an_undecodable_attachment_is_listed_as_empty() {
    let list = list_parsed(Ok(part("a/b", true, None, Err("broken".to_string())))).unwrap();
    assert_eq!(list[0].size, 0);
    assert_eq!(list[0].filename, "attachment-0.bin");
}

#[test]
fn parts_below_an_attachment_are_walked() {
    let mut outer = part("message/rfc822", true, Some("m.eml"), Ok(vec![0]));
    outer.subparts = vec![part("a/b", true, Some("x"), Ok(vec![]))];
    let mut out = vec![];
    walk_attachments(&outer, &mut out);
    assert_eq!(out.len(), 2);
    assert_eq!(out[1].filename, "x");
    walk_attachments(&outer, &mut out);
    assert_eq!(out[3].index, 3);
}

#[test]
fn downloads_match_the_listing() {
    let list = list_parsed(Ok(two_files())).unwrap();
    for i in 0..2u32 {
        let (info, bytes) = download_parsed(Ok(two_files()), i, 10).unwrap();
        assert_eq!(info.filename, list[i as usize].filename);
        assert_eq!(info.mime, list[i as usize].mime);
        assert_eq!(info.size, list[i as usize].size);
        assert_eq!(bytes.len(), info.size);
    }
    let (_, bytes) = download_parsed(Ok(two_files()), 0, 10).unwrap();
    assert_eq!(bytes, vec![1, 2, 3]);
}

#[test]
fn a_missing_index_is_an_error() {
    assert_eq!(download_parsed(Ok(two_files()), 2, 100).err().unwrap(), "attachment index 2 not found");
}

#[test]
fn one_oversized_attachment_stops_every_download() {
    let e = download_parsed(Ok(two_files()), 0, 9).err().unwrap();
    assert_eq!(e, "attachment index 1 is 10 bytes, exceeding the 9 byte limit");
}

#[test]
fn the_first_failure_decides() {
    let m = message(vec![
        part("a/b", true, None, Ok(vec![0; 4])),
        part("a/b", true, None, Err("broken".to_string())),
        part("a/b", true, None, Ok(vec![0; 40])),
    ]);
    assert_eq!(download_parsed(Ok(m), 0, 5).err().unwrap(), "broken");
    assert_eq!(download_parsed(Err("no message".to_string()), 0, 5).err().unwrap(), "no message");
}

#[test]
fn raw_messages_are_read() {
    let raw = b"Content-Type: application/octet-stream\r\nContent-Disposition: attachment; filename=f.bin\r\nContent-Transfer-Encoding: base64\r\n\r\nAQID\r\n";
    let list = collect_attachments(raw).unwrap();
    assert_eq!((list.len(), list[0].filename.as_str(), list[0].size), (1, "f.bin", 3));
    assert_eq!(download(raw, 0, 3).unwrap().1, vec![1, 2, 3]);
    assert!(collect_attachments(b" overhanging: x").is_err());
    assert!(download(b" overhanging: x", 0, 3).is_err());
}

#[test]
fn files_are_saved_in_the_directory() {
    assert_eq!(save_path("attachments", 12, 3, "../../etc/passwd"), "attachments/uid12-3-passwd");
    assert_eq!(save_path("/tmp/", 0, 0, ".."), "/tmp/uid0-0-attachment.bin");
    assert_eq!(save_path("", 1, 2, "a/b:c"), "uid1-2-b_c");
}

#[test]
fn different_attachments_have_different_files() {
    assert_ne!(save_path("d", 1, 23, "x"), save_path("d", 12, 3, "x"));
    assert_ne!(save_path("d", 1, 2, "3-x"), save_path("d", 1, 23, "x"));
    assert_ne!(save_path("d", 1, 0, "x"), save_path("d", 1, 1, "x"));
}
