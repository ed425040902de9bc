//! Sending a message: its attachments are inspected and read one after another,
//! then it is delivered, and only then a copy is saved.
use vstd::prelude::*;
use vstd::utf8::encode_utf8;

use crate::compose;
use crate::compose::{
    build_error, compose_error, guessed_type, header_fields, is_composed, message_fields,
    message_parts, parsed_content_type, parsed_mailbox, rendered, with_line_ends, Draft,
    FileContent, Letter,
};
use crate::config::{Resolved, ResolvedAccount};
use crate::mime::text_of;
use crate::path::name_of;
use crate::text;
use crate::text::{decimal, views};

verus! {

/// A message to send.
pub struct Outgoing {
    pub to: String,
    pub subject: String,
    pub body: String,
    pub in_reply_to: Option<String>,
    /// The paths of the files to attach.
    pub attachments: Vec<String>,
}

/// An `Outgoing` as texts.
#[verifier::ext_equal]
pub struct Mail {
    pub to: Seq<char>,
    pub subject: Seq<char>,
    pub body: Seq<char>,
    pub in_reply_to: Option<Seq<char>>,
    pub attachments: Seq<Seq<char>>,
}

impl View for Outgoing {
    type V = Mail;

    open spec fn view(&self) -> Mail {
        Mail {
            to: self.to@,
            subject: self.subject@,
            body: self.body@,
            in_reply_to: text_of(self.in_reply_to),
            attachments: views(self.attachments@),
        }
    }
}

/// What is known of a file to attach: its size, and, once it was read, its
/// content.
pub struct FileState {
    pub size: Result<u64, String>,
    pub content: Option<Result<Vec<u8>, String>>,
}

/// A `FileState` as texts and bytes.
pub struct Known {
    pub size: Result<u64, Seq<char>>,
    pub content: Option<Result<Seq<u8>, Seq<char>>>,
}

impl View for FileState {
    type V = Known;

    open spec fn view(&self) -> Known {
        Known {
            size: match self.size {
                Ok(n) => Ok(n),
                Err(e) => Err(e@),
            },
            content: match self.content {
                None => None,
                Some(Ok(bytes)) => Some(Ok(bytes@)),
                Some(Err(e)) => Some(Err(e@)),
            },
        }
    }
}

/// What is known of the files to attach, in order.
pub open spec fn known(files: Seq<FileState>) -> Seq<Known> {
    files.map_values(|f: FileState| f@)
}

/// What to do about a file to attach.
pub enum FileStep {
    /// Find out its size.
    Inspect,
    /// Read it.
    Read,
    /// Give up, for this reason.
    Refuse(Seq<char>),
    /// Attach it with this content.
    Accept(Seq<u8>),
}

/// What to do about the file at `path`, of which `file` is known: its size is
/// checked before it is read, and its content once more after that.
pub open spec fn file_step(path: Seq<char>, limit: nat, file: Option<Known>) -> FileStep {
    match file {
        None => FileStep::Inspect,
        Some(file) => match file.size {
            Err(e) => FileStep::Refuse("cannot inspect attachment "@ + path + ": "@ + e),
            Ok(size) => if size > limit {
                FileStep::Refuse(
                    "attachment "@ + path + " is "@ + decimal(size as nat)
                        + " bytes, exceeding the "@ + decimal(limit) + " byte limit"@,
                )
            } else {
                match file.content {
                    None => FileStep::Read,
                    Some(Err(e)) => FileStep::Refuse(
                        "cannot read attachment "@ + path + ": "@ + e,
                    ),
                    Some(Ok(bytes)) => if bytes.len() > limit {
                        FileStep::Refuse(
                            "attachment "@ + path + " exceeds the "@ + decimal(limit)
                                + " byte limit"@,
                        )
                    } else {
                        FileStep::Accept(bytes)
                    },
                }
            },
        },
    }
}

/// What is known of the file number `i`, if anything is.
pub open spec fn known_of(files: Seq<Known>, i: int) -> Option<Known> {
    if 0 <= i < files.len() {
        Some(files[i])
    } else {
        None
    }
}

/// What to do about the file number `i`.
pub open spec fn nth_step(paths: Seq<Seq<char>>, limit: nat, files: Seq<Known>, i: int) -> FileStep {
    file_step(paths[i], limit, known_of(files, i))
}

/// How many files, from the number `from` on, can be attached before one that
/// cannot, or not yet.
pub open spec fn accepted(
    paths: Seq<Seq<char>>,
    limit: nat,
    files: Seq<Known>,
    from: int,
) -> nat
    decreases paths.len() - from,
{
    if 0 <= from < paths.len() && nth_step(paths, limit, files, from) is Accept {
        1 + accepted(paths, limit, files, from + 1)
    } else {
        0
    }
}

/// Files with their content, where all of them can be attached.
pub open spec fn attached(paths: Seq<Seq<char>>, limit: nat, files: Seq<Known>) -> Seq<
    (Seq<char>, Seq<u8>),
> {
    Seq::new(
        paths.len(),
        |i: int| (paths[i], nth_step(paths, limit, files, i)->Accept_0),
    )
}

/// A message that goes out, and the server that takes it.
pub struct Delivery {
    pub host: String,
    pub port: u16,
    /// TLS from the start, or else STARTTLS.
    pub implicit_tls: bool,
    pub user: String,
    pub pass: String,
    pub email: lettre::Message,
    /// The message as it is sent.
    pub raw: Vec<u8>,
}

/// What to do next about a message to send.
pub enum SendAction {
    /// Find out the size of this file.
    Inspect(String),
    /// Read this file.
    Read(String),
    /// Give up, for this reason.
    Fail(String),
    /// Hand the message to the server.
    Deliver(Delivery),
}

/// Whether a port means TLS from the start; on every other it begins with
/// STARTTLS.
pub open spec fn means_tls(port: u16) -> bool {
    port == 465
}

/// Whether a port means TLS from the start.
pub fn uses_implicit_tls(port: u16) -> (r: bool)
    ensures
        r == means_tls(port),
{
    port == 465
}

/// The message to compose once all files can be attached.
pub open spec fn letter_for(account: Resolved, mail: Mail, files: Seq<Known>) -> Letter {
    Letter {
        from: account.smtp_from,
        to: mail.to,
        subject: mail.subject,
        body: mail.body,
        in_reply_to: mail.in_reply_to,
        files: attached(mail.attachments, account.max_attachment_bytes as nat, files),
    }
}

/// Whether `delivery` takes the message that `letter` describes to the account's
/// server.
pub open spec fn delivers(delivery: Delivery, account: Resolved, letter: Letter) -> bool {
    &&& delivery.host@ == account.smtp_host
    &&& delivery.port == account.smtp_port
    &&& delivery.implicit_tls == means_tls(account.smtp_port)
    &&& delivery.user@ == account.smtp_user
    &&& delivery.pass@ == account.smtp_pass
    &&& is_composed(delivery.email, letter)
    &&& delivery.raw@ == rendered(delivery.email)
}

/// Whether `action` is the next one for a message to send, with this known of
/// its files: the addresses are checked, the files inspected and read in order,
/// and then the message goes out.
pub open spec fn is_send_action(
    action: SendAction,
    account: Resolved,
    mail: Mail,
    files: Seq<Known>,
) -> bool {
    let limit = account.max_attachment_bytes as nat;
    match header_fields(account.smtp_from, mail.to, mail.subject, mail.in_reply_to) {
        Err(e) => action matches SendAction::Fail(f) && f@ == e,
        Ok(_) => {
            let n = accepted(mail.attachments, limit, files, 0);
            if n < mail.attachments.len() {
                let path = mail.attachments[n as int];
                match nth_step(mail.attachments, limit, files, n as int) {
                    FileStep::Inspect => action matches SendAction::Inspect(p) && p@ == path,
                    FileStep::Read => action matches SendAction::Read(p) && p@ == path,
                    FileStep::Refuse(e) => action matches SendAction::Fail(f) && f@ == e,
                    FileStep::Accept(_) => false,
                }
            } else {
                let letter = letter_for(account, mail, files);
                match compose_error(letter) {
                    Some(e) => action matches SendAction::Fail(f) && f@ == e,
                    None => action matches SendAction::Deliver(delivery) && delivers(
                        delivery,
                        account,
                        letter,
                    ),
                }
            }
        },
    }
}

/// What to do about a file to attach, and the content to attach it with.
enum FileDecision {
    Inspect,
    Read,
    Refuse(String),
    Accept(Vec<u8>),
}

/// What to do about a file to attach.
fn decide(path: &str, limit: usize, file: Option<&FileState>) -> (r: FileDecision)
    ensures
        match file_step(
            path@,
            limit as nat,
            match file {
                Some(f) => Some(f@),
                None => None,
            },
        ) {
            FileStep::Inspect => r is Inspect,
            FileStep::Read => r is Read,
            FileStep::Refuse(e) => r matches FileDecision::Refuse(f) && f@ == e,
            FileStep::Accept(bytes) => r matches FileDecision::Accept(b) && b@ == bytes,
        },
{
    let file = match file {
        None => return FileDecision::Inspect,
        Some(file) => file,
    };
    match &file.size {
        Err(e) => FileDecision::Refuse(
            "cannot inspect attachment ".to_string().concat(path).concat(": ").concat(e.as_str()),
        ),
        Ok(size) => if *size > limit as u64 {
            FileDecision::Refuse(
                "attachment ".to_string().concat(path).concat(" is ").concat(
                    text::show(*size).as_str(),
                ).concat(" bytes, exceeding the ").concat(text::show(limit as u64).as_str()).concat(
                    " byte limit",
                ),
            )
        } else {
            match &file.content {
                None => FileDecision::Read,
                Some(Err(e)) => FileDecision::Refuse(
                    "cannot read attachment ".to_string().concat(path).concat(": ").concat(
                        e.as_str(),
                    ),
                ),
                Some(Ok(bytes)) => if bytes.len() > limit {
                    FileDecision::Refuse(
                        "attachment ".to_string().concat(path).concat(" exceeds the ").concat(
                            text::show(limit as u64).as_str(),
                        ).concat(" byte limit"),
                    )
                } else {
                    let copy = bytes.clone();
                    assert(copy@ =~= bytes@);
                    FileDecision::Accept(copy)
                },
            }
        },
    }
}

/// Counting can be taken up where it was left.
proof fn lemma_accepted(paths: Seq<Seq<char>>, limit: nat, files: Seq<Known>, from: int)
    requires
        0 <= from <= paths.len(),
    ensures
        from + accepted(paths, limit, files, from) <= paths.len(),
        forall|i: int|
            from <= i < from + accepted(paths, limit, files, from) ==> #[trigger] nth_step(
                paths,
                limit,
                files,
                i,
            ) is Accept,
    decreases paths.len() - from,
{
    if from < paths.len() && nth_step(paths, limit, files, from) is Accept {
        lemma_accepted(paths, limit, files, from + 1);
    }
}

/// The next action for a message to send.
pub fn smtp_send(account: &ResolvedAccount, mail: &Outgoing, files: &Vec<FileState>) -> (r:
    SendAction)
    ensures
        is_send_action(r, account@, mail@, known(files@)),
{
    if let Err(e) = compose::address(
        account.smtp_from.as_str(),
        mail.to.as_str(),
        mail.subject.as_str(),
        &mail.in_reply_to,
    ) {
        return SendAction::Fail(e);
    }
    let limit = account.max_attachment_bytes;
    let ghost paths = mail@.attachments;
    let ghost states = known(files@);
    let mut contents: Vec<FileContent> = Vec::new();
    let mut i: usize = 0;
    while i < mail.attachments.len()
        invariant
            i <= mail.attachments@.len() == paths.len(),
            paths == views(mail.attachments@),
            states == known(files@),
            contents@.len() == i,
            accepted(paths, limit as nat, states, 0) == i + accepted(
                paths,
                limit as nat,
                states,
                i as int,
            ),
            limit == account@.max_attachment_bytes,
            paths == mail@.attachments,
            header_fields(
                account@.smtp_from,
                mail@.to,
                mail@.subject,
                mail@.in_reply_to,
            ) is Ok,
            forall|k: int|
                0 <= k < i ==> (#[trigger] contents@[k]).path@ == paths[k] && contents@[k].bytes@
                    == nth_step(paths, limit as nat, states, k)->Accept_0,
        decreases mail.attachments@.len() - i,
    {
        let path = &mail.attachments[i];
        assert(path@ == paths[i as int]);
        let file = if i < files.len() {
            assert(states[i as int] == files@[i as int]@);
            Some(&files[i])
        } else {
            None
        };
        match decide(path.as_str(), limit, file) {
            FileDecision::Inspect => return SendAction::Inspect(path.clone()),
            FileDecision::Read => return SendAction::Read(path.clone()),
            FileDecision::Refuse(e) => return SendAction::Fail(e),
            FileDecision::Accept(bytes) => {
                contents.push(FileContent { path: path.clone(), bytes });
            },
        }
        i += 1;
    }
    let draft = Draft {
        from: account.smtp_from.clone(),
        to: mail.to.clone(),
        subject: mail.subject.clone(),
        body: mail.body.clone(),
        in_reply_to: mail.in_reply_to.clone(),
        files: contents,
    };
    assert(draft@.files =~= attached(paths, limit as nat, states));
    assert(draft@ =~= letter_for(account@, mail@, states));
    match compose::compose(draft) {
        Err(e) => SendAction::Fail(e),
        Ok(email) => {
            let raw = compose::render(&email);
            SendAction::Deliver(
                Delivery {
                    host: account.smtp_host.clone(),
                    port: account.smtp_port,
                    implicit_tls: uses_implicit_tls(account.smtp_port),
                    user: account.smtp_user.clone(),
                    pass: account.smtp_pass.clone(),
                    email,
                    raw,
                },
            )
        },
    }
}

/// A copy of a message that was sent, and the folder it goes to.
pub struct SentCopy {
    pub folder: String,
    pub raw: Vec<u8>,
}

/// What follows a delivery: a copy is saved once the server has taken the
/// message; else sending has failed.
pub fn after_delivery(account: &ResolvedAccount, raw: Vec<u8>, sent: Result<(), String>) -> (r:
    Result<SentCopy, String>)
    ensures
        match sent {
            Ok(_) => r matches Ok(copy) && copy.folder@ == account@.sent_folder && copy.raw@
                == raw@,
            Err(e) => r matches Err(f) && f@ == e@,
        },
{
    match sent {
        Ok(_) => Ok(SentCopy { folder: account.sent_folder.clone(), raw }),
        Err(e) => Err(e),
    }
}

/// What is reported of a message that was sent. That no copy could be saved is a
/// warning, no failure: the message must not be sent again for it.
pub open spec fn sent_report(
    to: Seq<char>,
    folder: Seq<char>,
    saved: Result<(), Seq<char>>,
) -> Seq<char> {
    match saved {
        Ok(_) => "sent to "@ + to + " and saved to "@ + folder,
        Err(e) => "sent to "@ + to + "; warning: could not save a copy to "@ + folder + ": "@ + e,
    }
}

/// What is reported of a message that was sent.
pub fn after_saving(to: &str, folder: &str, saved: Result<(), String>) -> (r: String)
    ensures
        r@ == sent_report(
            to@,
            folder@,
            match saved {
                Ok(_) => Ok(()),
                Err(e) => Err(e@),
            },
        ),
{
    match saved {
        Ok(_) => "sent to ".to_string().concat(to).concat(" and saved to ").concat(folder),
        Err(e) => "sent to ".to_string().concat(to).concat(
            "; warning: could not save a copy to ",
        ).concat(folder).concat(": ").concat(e.as_str()),
    }
}

/// A message goes out only when every file to attach was inspected and read and
/// is within the limit, by its size and by its content; it then carries exactly
/// these files, in order.
pub proof fn law_only_checked_files_go_out(
    action: SendAction,
    account: Resolved,
    mail: Mail,
    files: Seq<Known>,
)
    requires
        is_send_action(action, account, mail, files),
        action is Deliver,
    ensures
        mail.attachments.len() <= files.len(),
        forall|i: int|
            #![trigger files[i]]
            0 <= i < mail.attachments.len() ==> {
                &&& files[i].size matches Ok(size) && size <= account.max_attachment_bytes
                &&& files[i].content matches Some(Ok(bytes)) && bytes.len()
                    <= account.max_attachment_bytes
                &&& letter_for(account, mail, files).files[i] == (
                    mail.attachments[i],
                    files[i].content->0->Ok_0,
                )
            },
        letter_for(account, mail, files).files.len() == mail.attachments.len(),
{
    let limit = account.max_attachment_bytes as nat;
    lemma_accepted(mail.attachments, limit, files, 0);
    if mail.attachments.len() > files.len() {
        assert(nth_step(mail.attachments, limit, files, files.len() as int) is Accept);
    }
    assert forall|i: int|
        #![trigger files[i]]
        0 <= i < mail.attachments.len() implies {
        &&& files[i].size matches Ok(size) && size <= account.max_attachment_bytes
        &&& files[i].content matches Some(Ok(bytes)) && bytes.len() <= account.max_attachment_bytes
        &&& letter_for(account, mail, files).files[i] == (
            mail.attachments[i],
            files[i].content->0->Ok_0,
        )
    } by {
        assert(nth_step(mail.attachments, limit, files, i) is Accept);
    }
}

/// Sending takes at most two looks at each file: once all are inspected and read,
/// the message goes out or sending fails.
pub proof fn law_sending_ends(
    action: SendAction,
    account: Resolved,
    mail: Mail,
    files: Seq<Known>,
)
    requires
        is_send_action(action, account, mail, files),
        mail.attachments.len() <= files.len(),
        forall|i: int| 0 <= i < files.len() ==> (#[trigger] files[i]).content is Some,
    ensures
        action is Deliver || action is Fail,
{
    let limit = account.max_attachment_bytes as nat;
    let n = accepted(mail.attachments, limit, files, 0);
    lemma_accepted(mail.attachments, limit, files, 0);
    if n < mail.attachments.len() {
        assert(files[n as int].content is Some);
    }
}

/// A file is read only after it was inspected and found to be within the limit.
pub proof fn law_size_is_checked_before_reading(
    path: Seq<char>,
    limit: nat,
    file: Option<Known>,
)
    requires
        file_step(path, limit, file) is Read,
    ensures
        file matches Some(f) && f.size matches Ok(size) && size <= limit,
{
}

/// Whether or not a copy could be saved, what is reported says that the message
/// was sent.
pub proof fn law_sent_is_reported(to: Seq<char>, folder: Seq<char>, saved: Result<(), Seq<char>>)
    ensures
        ("sent to "@ + to).is_prefix_of(sent_report(to, folder, saved)),
{
    let head = "sent to "@ + to;
    assert(head =~= sent_report(to, folder, saved).subrange(0, head.len() as int));
}

/// Whether a file was inspected and read, and is within the limit by its size and
/// by its content.
pub open spec fn is_ready(file: FileState, limit: usize) -> bool {
    &&& file.size matches Ok(size) && size <= limit
    &&& file.content matches Some(Ok(bytes)) && bytes@.len() <= limit
}

/// Files that are ready are accepted.
proof fn lemma_ready_is_accepted(
    paths: Seq<Seq<char>>,
    limit: usize,
    files: Seq<FileState>,
    from: int,
    n: int,
)
    requires
        0 <= from <= n <= paths.len(),
        n <= files.len(),
        forall|i: int| 0 <= i < n ==> is_ready(#[trigger] files[i], limit),
    ensures
        accepted(paths, limit as nat, known(files), from) == n - from + accepted(
            paths,
            limit as nat,
            known(files),
            n,
        ),
        forall|i: int|
            from <= i < n ==> nth_step(paths, limit as nat, known(files), i) == FileStep::Accept(
                (#[trigger] files[i]).content->0->Ok_0@,
            ),
    decreases n - from,
{
    if from < n {
        assert(is_ready(files[from], limit));
        assert(known(files)[from] == files[from]@);
        lemma_ready_is_accepted(paths, limit, files, from + 1, n);
    }
}

/// What goes out is the mail that was to be sent, whether or not it is a reply: to
/// the account's server, with its text as the first part, and behind it all the
/// bytes of each file as they were read, in order, under the file's name; and the
/// copy that is kept is the message as it is sent.
pub proof fn law_the_mail_itself_goes_out(
    delivery: Delivery,
    account: ResolvedAccount,
    mail: Outgoing,
    files: Seq<FileState>,
)
    requires
        is_send_action(SendAction::Deliver(delivery), account@, mail@, known(files)),
    ensures
        delivery.host@ == account.smtp_host@,
        delivery.port == account.smtp_port,
        delivery.implicit_tls <==> account.smtp_port == 465,
        delivery.user@ == account.smtp_user@,
        delivery.pass@ == account.smtp_pass@,
        delivery.raw@ == rendered(delivery.email),
        message_parts(delivery.email).len() == mail.attachments@.len() + 1,
        message_parts(delivery.email)[0] == (
            "text/plain; charset=utf-8"@,
            None::<Seq<char>>,
            encode_utf8(with_line_ends(mail.body@)),
        ),
        mail.attachments@.len() <= files.len(),
        forall|i: int|
            #![trigger files[i]]
            0 <= i < mail.attachments@.len() ==> {
                let part = message_parts(delivery.email)[i + 1];
                let path = mail.attachments@[i]@;
                &&& is_ready(files[i], account.max_attachment_bytes)
                &&& files[i].content matches Some(Ok(bytes)) && part.2.len() == bytes@.len()
                    && forall|k: int| 0 <= k < bytes@.len() ==> #[trigger] part.2[k] == bytes@[k]
                &&& match name_of(path) {
                    Some(name) => part.1 == Some(name),
                    None => part.1 == Some("attachment.bin"@),
                }
                &&& match parsed_content_type(guessed_type(path)) {
                    Some(content_type) => part.0 == content_type,
                    None => part.0 == "text/plain; charset=utf-8"@,
                }
            },
{
    let letter = letter_for(account@, mail@, known(files));
    let action = SendAction::Deliver(delivery);
    law_only_checked_files_go_out(action, account@, mail@, known(files));
    compose::law_letter_is_carried_whole(delivery.email, letter);
    assert forall|i: int|
        #![trigger files[i]]
        0 <= i < mail.attachments@.len() implies {
        let part = message_parts(delivery.email)[i + 1];
        let path = mail.attachments@[i]@;
        &&& is_ready(files[i], account.max_attachment_bytes)
        &&& files[i].content matches Some(Ok(bytes)) && part.2.len() == bytes@.len() && forall|
            k: int,
        |
            0 <= k < bytes@.len() ==> #[trigger] part.2[k] == bytes@[k]
        &&& match name_of(path) {
            Some(name) => part.1 == Some(name),
            None => part.1 == Some("attachment.bin"@),
        }
        &&& match parsed_content_type(guessed_type(path)) {
            Some(content_type) => part.0 == content_type,
            None => part.0 == "text/plain; charset=utf-8"@,
        }
    } by {
        assert(known(files)[i] == files[i]@);
        assert(letter.files[i] == (mail@.attachments[i], files[i]@.content->0->Ok_0));
    }
}

/// The mail that goes out is from the account's address, to the address and about
/// the subject that it was to be sent with, and names the message that it replies
/// to exactly if it is a reply.
pub proof fn law_the_mail_goes_out_as_addressed(
    delivery: Delivery,
    account: ResolvedAccount,
    mail: Outgoing,
    files: Seq<FileState>,
)
    requires
        is_send_action(SendAction::Deliver(delivery), account@, mail@, known(files)),
    ensures
        parsed_mailbox(account.smtp_from@) is Ok,
        parsed_mailbox(mail.to@) is Ok,
        message_fields(delivery.email).contains_key("From"@),
        message_fields(delivery.email)["From"@] == parsed_mailbox(account.smtp_from@)->Ok_0,
        message_fields(delivery.email).contains_key("To"@),
        message_fields(delivery.email)["To"@] == parsed_mailbox(mail.to@)->Ok_0,
        message_fields(delivery.email).contains_key("Subject"@),
        message_fields(delivery.email)["Subject"@] == mail.subject@,
        match mail.in_reply_to {
            Some(id) => message_fields(delivery.email).contains_key("In-Reply-To"@)
                && message_fields(delivery.email)["In-Reply-To"@] == id@,
            None => !message_fields(delivery.email).contains_key("In-Reply-To"@),
        },
{
    let letter = letter_for(account@, mail@, known(files));
    let action = SendAction::Deliver(delivery);
    law_only_checked_files_go_out(action, account@, mail@, known(files));
    compose::law_headers_are_those_of_the_letter(delivery.email, letter);
}

/// Nothing is looked at for a mail of which an address is none: sending fails with
/// what is wrong with the sender's, or else with the recipient's.
pub proof fn law_bad_addresses_are_refused_first(
    action: SendAction,
    account: ResolvedAccount,
    mail: Outgoing,
    files: Seq<FileState>,
)
    requires
        is_send_action(action, account@, mail@, known(files)),
    ensures
        parsed_mailbox(account.smtp_from@) matches Err(e) ==> (action matches SendAction::Fail(f)
            && f@ == e),
        parsed_mailbox(account.smtp_from@) is Ok ==> (parsed_mailbox(mail.to@) matches Err(e) ==> (
        action matches SendAction::Fail(f) && f@ == e)),
{
}

/// With good addresses, the first file that is not ready decides: one of which
/// nothing is known is inspected, one of a good size is read, and everything else
/// is refused, with the file's name and what is wrong with it.
pub proof fn law_files_are_taken_one_after_another(
    action: SendAction,
    account: ResolvedAccount,
    mail: Outgoing,
    files: Seq<FileState>,
    n: int,
)
    requires
        is_send_action(action, account@, mail@, known(files)),
        parsed_mailbox(account.smtp_from@) is Ok,
        parsed_mailbox(mail.to@) is Ok,
        0 <= n < mail.attachments@.len(),
        n <= files.len(),
        forall|i: int| 0 <= i < n ==> is_ready(#[trigger] files[i], account.max_attachment_bytes),
        n < files.len() ==> !is_ready(files[n], account.max_attachment_bytes),
    ensures
        ({
            let path = mail.attachments@[n]@;
            let limit = account.max_attachment_bytes;
            if n == files.len() {
                action matches SendAction::Inspect(p) && p@ == path
            } else {
                match files[n].size {
                    Err(e) => action matches SendAction::Fail(f) && f@
                        == "cannot inspect attachment "@ + path + ": "@ + e@,
                    Ok(size) => if size > limit {
                        action matches SendAction::Fail(f) && f@ == "attachment "@ + path + " is "@
                            + decimal(size as nat) + " bytes, exceeding the "@ + decimal(
                            limit as nat,
                        ) + " byte limit"@
                    } else {
                        match files[n].content {
                            None => action matches SendAction::Read(p) && p@ == path,
                            Some(Err(e)) => action matches SendAction::Fail(f) && f@
                                == "cannot read attachment "@ + path + ": "@ + e@,
                            Some(Ok(_)) => action matches SendAction::Fail(f) && f@
                                == "attachment "@ + path + " exceeds the "@ + decimal(limit as nat)
                                + " byte limit"@,
                        }
                    },
                }
            }
        }),
{
    let paths = mail@.attachments;
    let limit = account.max_attachment_bytes;
    lemma_ready_is_accepted(paths, limit, files, 0, n);
    assert(paths[n] == mail.attachments@[n]@);
    if n < files.len() {
        assert(known(files)[n] == files[n]@);
    }
}

/// With good addresses and every file ready, the mail goes out, unless no message
/// can be built with its headers, and then that is the error.
pub proof fn law_a_ready_mail_goes_out(
    action: SendAction,
    account: ResolvedAccount,
    mail: Outgoing,
    files: Seq<FileState>,
    headers: Map<Seq<char>, Seq<char>>,
)
    requires
        is_send_action(action, account@, mail@, known(files)),
        parsed_mailbox(account.smtp_from@) is Ok,
        parsed_mailbox(mail.to@) is Ok,
        mail.attachments@.len() <= files.len(),
        forall|i: int|
            0 <= i < mail.attachments@.len() ==> is_ready(
                #[trigger] files[i],
                account.max_attachment_bytes,
            ),
        forall|key: Seq<char>| #[trigger]
            headers.contains_key(key) <==> key == "From"@ || key == "To"@ || key == "Subject"@ || (
            key == "In-Reply-To"@ && mail.in_reply_to is Some) || (key == "Content-Type"@
                && mail.attachments@.len() == 0),
        headers["From"@] == parsed_mailbox(account.smtp_from@)->Ok_0,
        headers["To"@] == parsed_mailbox(mail.to@)->Ok_0,
        headers["Subject"@] == mail.subject@,
        mail.in_reply_to matches Some(id) ==> headers["In-Reply-To"@] == id@,
        mail.attachments@.len() == 0 ==> headers["Content-Type"@] == "text/plain; charset=utf-8"@,
    ensures
        match build_error(headers) {
            None => action is Deliver,
            Some(e) => action matches SendAction::Fail(f) && f@ == e,
        },
{
    let paths = mail@.attachments;
    let limit = account.max_attachment_bytes;
    let letter = letter_for(account@, mail@, known(files));
    lemma_ready_is_accepted(paths, limit, files, 0, paths.len() as int);
    compose::law_when_a_message_can_be_composed(letter, headers);
}

/// What is reported of a message that was sent says to whom, and where its copy
/// is, or why there is none.
pub proof fn law_report_says_where_the_copy_is(
    to: Seq<char>,
    folder: Seq<char>,
    e: Seq<char>,
)
    ensures
        sent_report(to, folder, Ok(())) == "sent to "@ + to + " and saved to "@ + folder,
        sent_report(to, folder, Err(e)) == "sent to "@ + to
            + "; warning: could not save a copy to "@ + folder + ": "@ + e,
{
}

/// Sending delivers the mail itself: its text and the bytes of its files, to the
/// address and with the subject that it has, and then keeps a copy of what was sent
/// in the account's folder, exactly if the server took it.
pub proof fn law_sending_delivers_and_keeps_a_copy(
    account: &ResolvedAccount,
    mail: &Outgoing,
    files: &Vec<FileState>,
    action: SendAction,
    raw: Vec<u8>,
    sent: Result<(), String>,
    copy: Result<SentCopy, String>,
)
    requires
        call_ensures(smtp_send, (account, mail, files), action),
        call_ensures(after_delivery, (account, raw, sent), copy),
    ensures
        is_send_action(action, account@, mail@, known(files@)),
        action matches SendAction::Deliver(delivery) ==> {
            &&& message_parts(delivery.email)[0].2 == encode_utf8(with_line_ends(mail.body@))
            &&& message_parts(delivery.email).len() == mail.attachments@.len() + 1
            &&& message_fields(delivery.email)["Subject"@] == mail.subject@
            &&& message_fields(delivery.email)["To"@] == parsed_mailbox(mail.to@)->Ok_0
            &&& message_fields(delivery.email)["From"@] == parsed_mailbox(
                account.smtp_from@,
            )->Ok_0
            &&& delivery.raw@ == rendered(delivery.email)
        },
        sent is Ok ==> (copy matches Ok(kept) && kept.folder@ == account.sent_folder@ && kept.raw@
            == raw@),
        sent matches Err(e) ==> (copy matches Err(f) && f@ == e@),
{
    if let SendAction::Deliver(delivery) = action {
        law_the_mail_itself_goes_out(delivery, *account, *mail, files@);
        law_the_mail_goes_out_as_addressed(delivery, *account, *mail, files@);
    }
}

/// What is reported names the recipient and the folder, and says whether the copy
/// was saved there.
pub proof fn law_the_report_is_of_this_mail(
    to: &str,
    folder: &str,
    saved: Result<(), String>,
    report: String,
)
    requires
        call_ensures(after_saving, (to, folder, saved), report),
    ensures
        match saved {
            Ok(_) => report@ == "sent to "@ + to@ + " and saved to "@ + folder@,
            Err(e) => report@ == "sent to "@ + to@ + "; warning: could not save a copy to "@
                + folder@ + ": "@ + e@,
        },
{
}

}
