use mail_mcp::mailbox::ThreadHeaders;
use mail_mcp::reply::{choose_recipient, reply, reply_with, Address};

fn thread(id: &str, from: &str, subject: &str) -> ThreadHeaders {
    ThreadHeaders { message_id: id.to_string(), from: from.to_string(), subject: subject.to_string() }
}

#[test]
fn a_reply_goes_to_the_bare_address() {
    let m = reply(&thread("<1@x>", "Name <a@b.c>", "Hello"), "thanks").unwrap();
    assert_eq!((m.to.as_str(), m.subject.as_str()), ("a@b.c", "Re: Hello"));
    assert_eq!(m.body, "thanks\n\n--- On original message (<1@x>) ---\n");
    assert_eq!(m.in_reply_to.as_deref(), Some("<1@x>"));
    assert!(m.attachments.is_empty());
}

#[test]
fn the_first_address_is_taken() {
    let list = Some(vec![Address::Group(vec![]), Address::Group(vec!["g@x".to_string(), "h@x".to_string()]), Address::Single("s@x".to_string())]);
    assert_eq!(choose_recipient("from", &list), "g@x");
    assert_eq!(choose_recipient("from", &Some(vec![Address::Single("s@x".to_string())])), "s@x");
    assert_eq!(choose_recipient("from", &Some(vec![])), "from");
    assert_eq!(choose_recipient("from", &None), "from");
    assert_eq!(reply(&thread("", "friends: a@b.c, d@e.f;", "x"), "").unwrap().to, "a@b.c");
}

#[test]
fn a_sender_that_is_no_address_is_used_as_it_stands() {
    assert_eq!(reply(&thread("", "not an address", "x"), "").unwrap().to, "not an address");
}

#[test]
fn a_reply_needs_a_sender() {
    assert_eq!(reply(&thread("", "", "x"), "b").err().unwrap(), "original From address not found");
}

#[test]
fn a_subject_is_marked_once() {
    for subject in ["Re: a", "RE:a", "re:", "rE: b"] {
        assert_eq!(reply(&thread("", "a@b.c", subject), "").unwrap().subject, subject);
    }
    for subject in ["", "Re a", " Re: a", "Fwd: Re: a"] {
        let once = reply(&thread("", "a@b.c", subject), "").unwrap().subject;
        assert_eq!(once, format!("Re: {subject}"));
        assert_eq!(reply(&thread("", "a@b.c", &once), "").unwrap().subject, once);
    }
}

#[test]
fn no_identifier_means_no_thread() {
    let m = reply_with(&thread("", "a@b.c", "x"), "b", &None).unwrap();
    assert!(m.in_reply_to.is_none());
    assert_eq!(m.body, "b\n\n--- On original message () ---\n");
}

#[test]
fn only_ascii_letters_make_a_reply_mark() {
    for code in 0..=0x10ffffu32 {
        if let Some(c) = char::from_u32(code) {
            if let Some(first) = c.to_lowercase().next() {
                if first == 'r' || first == 'e' || first == ':' {
                    assert!(c.is_ascii());
                }
            }
        }
    }
}
