use mail_mcp::email::{collect_body_parts, extract_body, parse_summary, show_message, summarize};
use mail_mcp::mime::{parse_message, MailPart};

fn leaf(mimetype: &str, text: Option<&str>) -> MailPart {
    MailPart {
        headers: vec![],
        mimetype: mimetype.to_string(),
        type_params: vec![],
        attachment: false,
        disposition_params: vec![],
        text: text.map(|t| t.to_string()),
        content: Ok(text.unwrap_or("").as_bytes().to_vec()),
        subparts: vec![],
    }
}

fn multipart(subparts: Vec<MailPart>) -> MailPart {
    let mut part = leaf("multipart/mixed", None);
    part.subparts = subparts;
    part
}

fn shown(part: MailPart) -> String {
    show_message(Ok(part)).1
}

#[test]
fn read_body_prefers_plain_text_part() {
    let raw = b"Content-Type: multipart/alternative; boundary=\"b\"\r\n\r\n--b\r\nContent-Type: text/plain\r\n\r\nplain body\r\n--b\r\nContent-Type: text/html\r\n\r\n<p>html body</p>\r\n--b--\r\n";
    let (_, body) = extract_body(raw);
    assert_eq!(body, "plain body");
}

#[test]
fn html_is_shown_where_there_is_no_plain_text() {
    assert_eq!(shown(multipart(vec![leaf("text/html", Some("<p>one</p><p>two</p>"))])), "one\ntwo");
    let both = vec![leaf("TEXT/HTML", Some("<p>h</p>")), leaf("Text/Plain", Some("p"))];
    assert_eq!(shown(multipart(both)), "p");
}

#[test]
fn a_part_that_cannot_be_decoded_is_passed_over() {
    let parts = vec![leaf("text/plain", None), leaf("text/plain", Some("second"))];
    assert_eq!(shown(multipart(parts)), "second");
    assert_eq!(shown(multipart(vec![leaf("image/png", Some("x"))])), "(binary/non-text body)");
}

#[test]
fn attachments_do_not_become_the_body() {
    let mut marked = leaf("text/plain", Some("attached"));
    marked.attachment = true;
    let mut named = leaf("text/plain", Some("named"));
    named.disposition_params = vec![("filename".to_string(), "".to_string())];
    let mut typed = leaf("text/plain", Some("typed"));
    typed.type_params = vec![("name".to_string(), "a.txt".to_string())];
    assert_eq!(shown(multipart(vec![marked, named, typed])), "(binary/non-text body)");
}

#[test]
fn what_was_found_before_is_kept() {
    let mut plain = Some("kept".to_string());
    let mut html = None;
    let part = multipart(vec![leaf("text/plain", Some("new")), leaf("text/html", Some("h"))]);
    collect_body_parts(&part, &mut plain, &mut html);
    assert_eq!(plain.as_deref(), Some("kept"));
    assert_eq!(html.as_deref(), Some("h"));
}

#[test]
fn bodies_are_cut_after_eight_thousand_characters() {
    let long = "\u{e4}".repeat(9000);
    assert_eq!(shown(leaf("text/plain", Some(&long))).chars().count(), 8000);
    let short = "x".repeat(8000);
    assert_eq!(shown(leaf("text/plain", Some(&short))), short);
}

#[test]
fn headers_are_shown_one_to_a_line() {
    let raw = b"From: a@b.c\r\nSubject: =?utf-8?q?caf=C3=A9?=\r\n\r\nhi";
    let (headers, body) = extract_body(raw);
    assert_eq!(headers, "From: a@b.c\nSubject: caf\u{e9}");
    assert_eq!(body, "hi");
}

#[test]
fn a_parse_error_is_shown() {
    assert_eq!(show_message(Err("bad".to_string())), (String::new(), "(parse error: bad)".to_string()));
}

#[test]
fn summaries_show_the_first_headers() {
    let raw = b"subject: one\r\nSubject: two\r\nFROM: x@y.z\r\nDate: today\r\n\r\n";
    let s = parse_summary(7, raw);
    assert_eq!((s.uid, s.from.as_str(), s.subject.as_str(), s.date.as_str()), (7, "x@y.z", "one", "today"));
    let empty = parse_summary(8, b"\r\n");
    assert_eq!((empty.uid, empty.from.as_str(), empty.subject.as_str()), (8, "", ""));
    let bad = summarize(9, Err("e".to_string()));
    assert_eq!((bad.uid, bad.subject.as_str(), bad.date.as_str()), (9, "(unparseable)", ""));
}

#[test]
fn a_parsed_message_holds_what_was_sent() {
    let raw = b"Content-Type: multipart/mixed; boundary=x\r\n\r\n--x\r\nContent-Type: text/plain; charset=utf-8\r\n\r\nhi\r\n--x\r\nContent-Type: application/pdf; name=\"a.pdf\"\r\nContent-Disposition: attachment; filename=\"b.pdf\"\r\nContent-Transfer-Encoding: base64\r\n\r\nAAEC\r\n--x--\r\n";
    let part = parse_message(raw).unwrap();
    assert_eq!(part.mimetype, "multipart/mixed");
    assert!(part.type_params.contains(&("boundary".to_string(), "x".to_string())));
    assert_eq!(part.subparts.len(), 2);
    assert_eq!(part.subparts[0].text.as_deref(), Some("hi"));
    let file = &part.subparts[1];
    assert!(file.attachment);
    assert!(!part.subparts[0].attachment);
    assert_eq!(file.mimetype, "application/pdf");
    assert_eq!(file.type_params, vec![("name".to_string(), "a.pdf".to_string())]);
    assert_eq!(file.disposition_params, vec![("filename".to_string(), "b.pdf".to_string())]);
    assert_eq!(file.content, Ok(vec![0, 1, 2]));
}

#[test]
fn a_message_that_starts_with_a_space_is_refused() {
    assert!(parse_message(b" overhanging: x").is_err());
    let (headers, body) = extract_body(b" overhanging: x");
    assert_eq!(headers, "");
    assert!(body.starts_with("(parse error: "));
}
