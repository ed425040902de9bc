//! Replying to a message: whom the reply goes to, its subject, its text and the
//! thread it belongs to.
use vstd::prelude::*;
use vstd::utf8::encode_utf8;

use crate::compose::{message_fields, message_parts, parsed_mailbox, with_line_ends};
use crate::config::ResolvedAccount;
use crate::mailbox::ThreadHeaders;
use crate::send;
use crate::send::{is_send_action, known, Delivery, FileState, Mail, Outgoing, SendAction};
use crate::text;
use crate::text::{lowered, views};

verus! {

/// An entry of an address list: one address, or the addresses of a group.
#[derive(Debug)]
pub enum Address {
    Single(String),
    Group(Vec<String>),
}

/// An `Address` as texts.
pub enum Addressee {
    Single(Seq<char>),
    Group(Seq<Seq<char>>),
}

impl View for Address {
    type V = Addressee;

    open spec fn view(&self) -> Addressee {
        match *self {
            Address::Single(addr) => Addressee::Single(addr@),
            Address::Group(addrs) => Addressee::Group(views(addrs@)),
        }
    }
}

/// An address list, where there is one.
pub open spec fn list_view(list: Option<Vec<Address>>) -> Option<Seq<Addressee>> {
    match list {
        Some(list) => Some(list@.map_values(|a: Address| a@)),
        None => None,
    }
}

/// The address list that a text holds, if it holds one.
pub uninterp spec fn parsed_addresses(text: Seq<char>) -> Option<Seq<Addressee>>;

/// `mailparse::addrparse`: the addresses in a text, in order, those of a group
/// together, without their display names. They depend on the text alone.
#[verifier::external_body]
fn parse_addresses(text: &str) -> (r: Option<Vec<Address>>)
    ensures
        list_view(r) == parsed_addresses(text@),
{
    let list = mailparse::addrparse(text).ok()?;
    Some(
        list.iter()
            .map(|entry| match entry {
                mailparse::MailAddr::Single(s) => Address::Single(s.addr.clone()),
                mailparse::MailAddr::Group(g) => {
                    Address::Group(g.addrs.iter().map(|s| s.addr.clone()).collect())
                },
            })
            .collect(),
    )
}

/// The first address of a list. A group without addresses is passed over.
pub open spec fn first_address(list: Seq<Addressee>) -> Option<Seq<char>>
    decreases list.len(),
{
    if list.len() == 0 {
        None
    } else {
        match list[0] {
            Addressee::Single(addr) => Some(addr),
            Addressee::Group(addrs) => if addrs.len() > 0 {
                Some(addrs[0])
            } else {
                first_address(list.skip(1))
            },
        }
    }
}

/// Whom a reply goes to: the first address of the sender's list, or else what
/// the message says of its sender, as it stands.
pub open spec fn recipient(from: Seq<char>, list: Option<Seq<Addressee>>) -> Seq<char> {
    match list {
        Some(list) => match first_address(list) {
            Some(addr) => addr,
            None => from,
        },
        None => from,
    }
}

/// Whom a reply goes to, given the sender's address list.
pub fn choose_recipient(from: &str, list: &Option<Vec<Address>>) -> (r: String)
    ensures
        r@ == recipient(from@, list_view(*list)),
{
    let entries = match list {
        Some(entries) => entries,
        None => return from.to_string(),
    };
    let ghost all = entries@.map_values(|a: Address| a@);
    assert(all.skip(0) =~= all);
    let mut i: usize = 0;
    while i < entries.len()
        invariant
            i <= entries@.len(),
            all == entries@.map_values(|a: Address| a@),
            list_view(*list) == Some(all),
            first_address(all) == first_address(all.skip(i as int)),
        decreases entries@.len() - i,
    {
        assert(all.skip(i as int)[0] == entries@[i as int]@);
        assert(all.skip(i as int).skip(1) =~= all.skip(i + 1));
        match &entries[i] {
            Address::Single(addr) => return addr.clone(),
            Address::Group(addrs) => {
                if addrs.len() > 0 {
                    assert(views(addrs@)[0] == addrs@[0]@);
                    return addrs[0].clone();
                }
            },
        }
        i += 1;
    }
    from.to_string()
}

/// Whether a subject is already that of a reply.
pub open spec fn is_reply(subject: Seq<char>) -> bool {
    "re:"@.is_prefix_of(lowered(subject))
}

/// The subject of a reply.
pub open spec fn reply_subject(subject: Seq<char>) -> Seq<char> {
    if is_reply(subject) {
        subject
    } else {
        "Re: "@ + subject
    }
}

/// The text of a reply: what was written, and a note of the message that it
/// replies to.
pub open spec fn reply_body(body: Seq<char>, message_id: Seq<char>) -> Seq<char> {
    body + "\n\n--- On original message ("@ + message_id + ") ---\n"@
}

/// The reply to a message, given the address list of its sender, or the error
/// where it names none.
pub open spec fn reply_mail(
    message_id: Seq<char>,
    from: Seq<char>,
    subject: Seq<char>,
    body: Seq<char>,
    list: Option<Seq<Addressee>>,
) -> Result<Mail, Seq<char>> {
    if from.len() == 0 {
        Err("original From address not found"@)
    } else {
        Ok(
            Mail {
                to: recipient(from, list),
                subject: reply_subject(subject),
                body: reply_body(body, message_id),
                in_reply_to: if message_id.len() == 0 {
                    None
                } else {
                    Some(message_id)
                },
                attachments: seq![],
            },
        )
    }
}

/// A message to send, or the text of the error.
pub open spec fn mail_view(r: Result<Outgoing, String>) -> Result<Mail, Seq<char>> {
    match r {
        Ok(mail) => Ok(mail@),
        Err(e) => Err(e@),
    }
}

/// The reply to a message, given the address list of its sender.
pub fn reply_with(thread: &ThreadHeaders, body: &str, list: &Option<Vec<Address>>) -> (r: Result<
    Outgoing,
    String,
>)
    ensures
        mail_view(r) == reply_mail(
            thread.message_id@,
            thread.from@,
            thread.subject@,
            body@,
            list_view(*list),
        ),
{
    if thread.from.as_str().is_empty() {
        return Err("original From address not found".to_string());
    }
    let is_reply = text::starts_with(text::to_lower(thread.subject.as_str()).as_str(), "re:");
    let subject = if is_reply {
        thread.subject.clone()
    } else {
        "Re: ".to_string().concat(thread.subject.as_str())
    };
    let to = choose_recipient(thread.from.as_str(), list);
    let body = body.to_string().concat("\n\n--- On original message (").concat(
        thread.message_id.as_str(),
    ).concat(") ---\n");
    let in_reply_to = if thread.message_id.as_str().is_empty() {
        None
    } else {
        Some(thread.message_id.clone())
    };
    let mail = Outgoing { to, subject, body, in_reply_to, attachments: Vec::new() };
    assert(mail@.attachments =~= seq![]);
    Ok(mail)
}

/// The reply to a message.
pub fn reply(thread: &ThreadHeaders, body: &str) -> (r: Result<Outgoing, String>)
    ensures
        mail_view(r) == reply_mail(
            thread.message_id@,
            thread.from@,
            thread.subject@,
            body@,
            parsed_addresses(thread.from@),
        ),
{
    reply_with(thread, body, &parse_addresses(thread.from.as_str()))
}

/// The subject of a reply always shows that it is one, and a reply to a reply
/// keeps it as it is.
pub proof fn law_reply_subject_is_stable(subject: Seq<char>)
    ensures
        is_reply(reply_subject(subject)),
        reply_subject(reply_subject(subject)) == reply_subject(subject),
{
    if !is_reply(subject) {
        let s = "Re: "@ + subject;
        reveal_strlit("re:");
        reveal_strlit("Re: ");
        assert("re:"@ =~= lowered(s).subrange(0, 3)) by {
            assert(lowered(s)[0] == text::lower('R'));
            assert(lowered(s)[1] == text::lower('e'));
            assert(lowered(s)[2] == text::lower(':'));
        }
    }
}

/// A reply stays in its thread: where the message has an identifier, the reply
/// names it, in its header and in its text.
pub proof fn law_reply_names_the_message(
    message_id: Seq<char>,
    from: Seq<char>,
    subject: Seq<char>,
    body: Seq<char>,
    list: Option<Seq<Addressee>>,
)
    requires
        from.len() > 0,
        message_id.len() > 0,
    ensures
        reply_mail(message_id, from, subject, body, list) matches Ok(mail) && mail.in_reply_to
            == Some(message_id) && mail.body == body + "\n\n--- On original message ("@ + message_id
            + ") ---\n"@,
{
}

/// A reply goes to the first address in the sender's list, alone or in a group:
/// entries before it are groups without addresses. Where there is no list, or no
/// address in it, it goes to what the message says of its sender.
pub proof fn law_reply_goes_to_the_first_address(
    from: Seq<char>,
    list: Seq<Addressee>,
    i: int,
)
    requires
        0 <= i <= list.len(),
        forall|k: int|
            0 <= k < i ==> (#[trigger] list[k] matches Addressee::Group(addrs) && addrs.len() == 0),
    ensures
        recipient(from, None) == from,
        i == list.len() ==> recipient(from, Some(list)) == from,
        i < list.len() ==> match list[i] {
            Addressee::Single(addr) => recipient(from, Some(list)) == addr,
            Addressee::Group(addrs) => addrs.len() > 0 ==> recipient(from, Some(list)) == addrs[0],
        },
{
    lemma_first_address(list, i);
}

/// Groups without addresses are passed over.
proof fn lemma_first_address(list: Seq<Addressee>, i: int)
    requires
        0 <= i <= list.len(),
        forall|k: int|
            0 <= k < i ==> (#[trigger] list[k] matches Addressee::Group(addrs) && addrs.len() == 0),
    ensures
        first_address(list) == first_address(list.skip(i)),
        i < list.len() ==> list.skip(i)[0] == list[i],
    decreases i,
{
    if i == 0 {
        assert(list.skip(0) =~= list);
    } else {
        let rest = list.skip(1);
        assert(list[0] matches Addressee::Group(addrs) && addrs.len() == 0);
        assert forall|k: int| 0 <= k < i - 1 implies (#[trigger] rest[k] matches Addressee::Group(
            addrs,
        ) && addrs.len() == 0) by {
            assert(rest[k] == list[k + 1]);
        }
        lemma_first_address(rest, i - 1);
        assert(rest.skip(i - 1) =~= list.skip(i));
    }
}

/// The subject of a reply is that of the message, behind `Re: ` unless it starts
/// with that already, whatever the case.
pub proof fn law_reply_subject_keeps_the_subject(subject: Seq<char>)
    ensures
        reply_subject(subject) == if subject.len() >= 3 && (subject[0] == 'r' || subject[0] == 'R')
            && (subject[1] == 'e' || subject[1] == 'E') && subject[2] == ':' {
            subject
        } else {
            "Re: "@ + subject
        },
{
    reveal_strlit("re:");
    let low = lowered(subject);
    if subject.len() >= 3 {
        assert(low[0] == text::lower(subject[0]));
        assert(low[1] == text::lower(subject[1]));
        assert(low[2] == text::lower(subject[2]));
        let head = low.subrange(0, 3);
        assert(head[0] == low[0] && head[1] == low[1] && head[2] == low[2]);
        if low[0] == 'r' && low[1] == 'e' && low[2] == ':' {
            assert(head =~= "re:"@);
        }
        if "re:"@.is_prefix_of(low) {
            assert(low[0] == "re:"@[0] && low[1] == "re:"@[1] && low[2] == "re:"@[2]);
        }
    }
}

/// A message can be replied to exactly if it says whom it is from. The reply has
/// the text that was written, all of it, and behind it the note of the message; it
/// names the message in its header exactly if that has an identifier; and it
/// carries no files.
pub proof fn law_reply_is_what_was_written(
    r: Result<Outgoing, String>,
    thread: ThreadHeaders,
    body: Seq<char>,
    list: Option<Seq<Addressee>>,
)
    requires
        mail_view(r) == reply_mail(
            thread.message_id@,
            thread.from@,
            thread.subject@,
            body,
            list,
        ),
    ensures
        r is Ok <==> thread.from@.len() > 0,
        r matches Err(e) ==> e@ == "original From address not found"@,
        r matches Ok(mail) ==> {
            &&& mail.to@ == recipient(thread.from@, list)
            &&& mail.subject@ == reply_subject(thread.subject@)
            &&& mail.body@ == body + "\n\n--- On original message ("@ + thread.message_id@
                + ") ---\n"@
            &&& thread.message_id@.len() > 0 ==> (mail.in_reply_to matches Some(id) && id@
                == thread.message_id@)
            &&& thread.message_id@.len() == 0 ==> mail.in_reply_to is None
            &&& mail.attachments@.len() == 0
        },
{
    if let Ok(mail) = r {
        assert(mail@.attachments.len() == mail.attachments@.len());
    }
}

/// A reply that goes out has the text that was written, and the note behind it, as
/// its only part, goes to the address that the reply is for, and names the message
/// that it replies to.
pub proof fn law_reply_goes_out_with_its_text(
    mail: Outgoing,
    thread: ThreadHeaders,
    body: Seq<char>,
    list: Option<Seq<Addressee>>,
    delivery: Delivery,
    account: ResolvedAccount,
    files: Seq<FileState>,
)
    requires
        mail_view(Ok(mail)) == reply_mail(
            thread.message_id@,
            thread.from@,
            thread.subject@,
            body,
            list,
        ),
        is_send_action(SendAction::Deliver(delivery), account@, mail@, known(files)),
    ensures
        message_parts(delivery.email).len() == 1,
        message_parts(delivery.email)[0].2 == encode_utf8(
            with_line_ends(
                body + "\n\n--- On original message ("@ + thread.message_id@ + ") ---\n"@,
            ),
        ),
        parsed_mailbox(recipient(thread.from@, list)) is Ok,
        message_fields(delivery.email)["To"@] == parsed_mailbox(
            recipient(thread.from@, list),
        )->Ok_0,
        message_fields(delivery.email)["Subject"@] == reply_subject(thread.subject@),
        thread.message_id@.len() > 0 ==> message_fields(delivery.email).contains_key(
            "In-Reply-To"@,
        ) && message_fields(delivery.email)["In-Reply-To"@] == thread.message_id@,
{
    law_reply_is_what_was_written(Ok(mail), thread, body, list);
    send::law_the_mail_itself_goes_out(delivery, account, mail, files);
    send::law_the_mail_goes_out_as_addressed(delivery, account, mail, files);
}

/// An address list is known by its entries, as many and in order, each by its
/// address or its addresses; and a mail by all that it says.
pub proof fn law_addresses_and_mails_are_known_whole(
    list: Vec<Address>,
    i: int,
    mail: Outgoing,
    e: String,
)
    ensures
        list_view(None) is None,
        list_view(Some(list)) matches Some(entries) && entries.len() == list@.len() && (0 <= i
            < list@.len() ==> match list@[i] {
            Address::Single(addr) => entries[i] == Addressee::Single(addr@),
            Address::Group(addrs) => entries[i] matches Addressee::Group(texts) && texts.len()
                == addrs@.len() && forall|k: int|
                0 <= k < texts.len() ==> #[trigger] texts[k] == addrs@[k]@,
        }),
        mail_view(Err(e)) == Err::<Mail, Seq<char>>(e@),
        mail_view(Ok(mail)) matches Ok(known) && {
            &&& known.to == mail.to@
            &&& known.subject == mail.subject@
            &&& known.body == mail.body@
            &&& mail.in_reply_to matches Some(id) ==> known.in_reply_to == Some(id@)
            &&& mail.in_reply_to is None ==> known.in_reply_to is None
            &&& known.attachments.len() == mail.attachments@.len()
            &&& forall|k: int|
                0 <= k < mail.attachments@.len() ==> #[trigger] known.attachments[k]
                    == mail.attachments@[k]@
        },
{
}

}
