//! Composing a message with `lettre`: its headers, its text and its attachments.
use vstd::prelude::*;
use vstd::utf8::encode_utf8;

use crate::mime::text_of;
use crate::path;
use crate::path::name_of;

verus! {

/// A file to attach: where it comes from and what it holds.
pub struct FileContent {
    pub path: String,
    pub bytes: Vec<u8>,
}

/// A message to compose.
pub struct Draft {
    pub from: String,
    pub to: String,
    pub subject: String,
    pub body: String,
    pub in_reply_to: Option<String>,
    pub files: Vec<FileContent>,
}

/// A `Draft` as texts and bytes; of each file its path and its content.
#[verifier::ext_equal]
pub struct Letter {
    pub from: Seq<char>,
    pub to: Seq<char>,
    pub subject: Seq<char>,
    pub body: Seq<char>,
    pub in_reply_to: Option<Seq<char>>,
    pub files: Seq<(Seq<char>, Seq<u8>)>,
}

/// Files, by their paths and what they hold.
pub open spec fn file_views(files: Seq<FileContent>) -> Seq<(Seq<char>, Seq<u8>)> {
    files.map_values(|f: FileContent| (f.path@, f.bytes@))
}

impl View for Draft {
    type V = Letter;

    open spec fn view(&self) -> Letter {
        Letter {
            from: self.from@,
            to: self.to@,
            subject: self.subject@,
            body: self.body@,
            in_reply_to: text_of(self.in_reply_to),
            files: file_views(self.files@),
        }
    }
}

/// The headers of a message that is being built.
#[verifier::external_type_specification]
#[verifier::external_body]
pub struct ExMessageBuilder(lettre::message::MessageBuilder);

/// The parts of a message with attachments.
#[verifier::external_type_specification]
#[verifier::external_body]
pub struct ExMultiPart(lettre::message::MultiPart);

/// A finished message.
#[verifier::external_type_specification]
#[verifier::external_body]
pub struct ExMessage(lettre::Message);

/// A content type.
#[verifier::external_type_specification]
#[verifier::external_body]
pub struct ExContentType(lettre::message::header::ContentType);

/// The headers that a message builder holds, each with its raw value.
pub uninterp spec fn fields(builder: lettre::message::MessageBuilder) -> Map<Seq<char>, Seq<char>>;

/// The parts that a multipart body holds: of each its content type, the name of
/// the file that it is an attachment for, if it is one, and its decoded content.
pub uninterp spec fn parts(body: lettre::message::MultiPart) -> Seq<
    (Seq<char>, Option<Seq<char>>, Seq<u8>),
>;

/// The headers that a finished message holds, each with its raw value.
pub uninterp spec fn message_fields(message: lettre::Message) -> Map<Seq<char>, Seq<char>>;

/// The parts that a finished message holds, as `parts` lists them. A message
/// without parts counts as one.
pub uninterp spec fn message_parts(message: lettre::Message) -> Seq<
    (Seq<char>, Option<Seq<char>>, Seq<u8>),
>;

/// A finished message as it is sent over the wire.
pub uninterp spec fn rendered(message: lettre::Message) -> Seq<u8>;

/// The mailbox that a text names, in canonical form, or the text of the error.
pub uninterp spec fn parsed_mailbox(text: Seq<char>) -> Result<Seq<char>, Seq<char>>;

/// Why no message can be built with these headers, where none can.
pub uninterp spec fn build_error(fields: Map<Seq<char>, Seq<char>>) -> Option<Seq<char>>;

/// A content type as a text.
pub uninterp spec fn content_type_text(content_type: lettre::message::header::ContentType) -> Seq<
    char,
>;

/// The content type that a text names, as a text again.
pub uninterp spec fn parsed_content_type(text: Seq<char>) -> Option<Seq<char>>;

/// The media type that goes with the extension of a file's name.
pub uninterp spec fn guessed_type(path: Seq<char>) -> Seq<char>;

/// No headers.
pub open spec fn no_fields() -> Map<Seq<char>, Seq<char>> {
    Map::empty()
}

/// `lettre::Message::builder`: a builder that holds no headers.
#[verifier::external_body]
fn new_builder() -> (r: lettre::message::MessageBuilder)
    ensures
        fields(r) == no_fields(),
{
    lettre::Message::builder()
}

/// `lettre::message::MessageBuilder::from` with a parsed
/// `lettre::message::Mailbox`: sets the `From` header of a builder that has none
/// to the mailbox's canonical form. Which mailbox a text names depends on the
/// text alone.
#[verifier::external_body]
fn with_from(builder: lettre::message::MessageBuilder, from: &str) -> (r: Result<
    lettre::message::MessageBuilder,
    String,
>)
    requires
        !fields(builder).contains_key("From"@),
    ensures
        match r {
            Ok(b) => parsed_mailbox(from@) is Ok && fields(b) == fields(builder).insert(
                "From"@,
                parsed_mailbox(from@)->Ok_0,
            ),
            Err(e) => parsed_mailbox(from@) == Err::<Seq<char>, Seq<char>>(e@),
        },
{
    match from.parse::<lettre::message::Mailbox>() {
        Ok(mailbox) => Ok(builder.from(mailbox)),
        Err(e) => Err(e.to_string()),
    }
}

/// `lettre::message::MessageBuilder::to` with a parsed
/// `lettre::message::Mailbox`: sets the `To` header of a builder that has none to
/// the mailbox's canonical form.
#[verifier::external_body]
fn with_to(builder: lettre::message::MessageBuilder, to: &str) -> (r: Result<
    lettre::message::MessageBuilder,
    String,
>)
    requires
        !fields(builder).contains_key("To"@),
    ensures
        match r {
            Ok(b) => parsed_mailbox(to@) is Ok && fields(b) == fields(builder).insert(
                "To"@,
                parsed_mailbox(to@)->Ok_0,
            ),
            Err(e) => parsed_mailbox(to@) == Err::<Seq<char>, Seq<char>>(e@),
        },
{
    match to.parse::<lettre::message::Mailbox>() {
        Ok(mailbox) => Ok(builder.to(mailbox)),
        Err(e) => Err(e.to_string()),
    }
}

/// `lettre::message::MessageBuilder::subject`: sets the `Subject` header.
#[verifier::external_body]
fn with_subject(builder: lettre::message::MessageBuilder, subject: &str) -> (r:
    lettre::message::MessageBuilder)
    ensures
        fields(r) == fields(builder).insert("Subject"@, subject@),
{
    builder.subject(subject)
}

/// `lettre::message::MessageBuilder::in_reply_to`: sets the `In-Reply-To`
/// header.
#[verifier::external_body]
fn with_in_reply_to(builder: lettre::message::MessageBuilder, id: &str) -> (r:
    lettre::message::MessageBuilder)
    ensures
        fields(r) == fields(builder).insert("In-Reply-To"@, id@),
{
    builder.in_reply_to(id.to_string())
}

/// `lettre::message::MessageBuilder::header` with a content type: sets the
/// `Content-Type` header.
#[verifier::external_body]
fn with_content_type(
    builder: lettre::message::MessageBuilder,
    content_type: lettre::message::header::ContentType,
) -> (r: lettre::message::MessageBuilder)
    ensures
        fields(r) == fields(builder).insert("Content-Type"@, content_type_text(content_type)),
{
    builder.header(content_type)
}

/// The content type of plain text.
pub open spec fn plain_text() -> Seq<char> {
    "text/plain; charset=utf-8"@
}

/// `lettre::message::header::ContentType::TEXT_PLAIN`: plain text in UTF-8.
#[verifier::external_body]
fn text_plain() -> (r: lettre::message::header::ContentType)
    ensures
        content_type_text(r) == "text/plain; charset=utf-8"@,
{
    lettre::message::header::ContentType::TEXT_PLAIN
}

/// `lettre::message::header::ContentType::parse`: the content type that a text
/// names, if it names one. That depends on the text alone.
#[verifier::external_body]
fn parse_content_type(text: &str) -> (r: Option<lettre::message::header::ContentType>)
    ensures
        match r {
            Some(t) => parsed_content_type(text@) == Some(content_type_text(t)),
            None => parsed_content_type(text@) is None,
        },
{
    lettre::message::header::ContentType::parse(text).ok()
}

/// `mime_guess::from_path`: the media type that goes with a file's extension, or
/// `application/octet-stream`. It depends on the path alone, from which no file
/// is read.
#[verifier::external_body]
fn guess_type(path: &str) -> (r: String)
    ensures
        r@ == guessed_type(path@),
{
    mime_guess::from_path(path).first_or_octet_stream().to_string()
}

/// `text` with a carriage return before every line feed that has none.
pub open spec fn with_line_ends(text: Seq<char>) -> Seq<char>
    decreases text.len(),
{
    if text.len() == 0 {
        text
    } else if text.last() == '\n' && !(text.len() > 1 && text[text.len() - 2] == '\r') {
        with_line_ends(text.drop_last()).push('\r').push('\n')
    } else {
        with_line_ends(text.drop_last()).push(text.last())
    }
}

/// A text as a part of a message.
pub open spec fn text_part(content_type: Seq<char>, text: Seq<char>) -> (
    Seq<char>,
    Option<Seq<char>>,
    Seq<u8>,
) {
    (content_type, None, encode_utf8(with_line_ends(text)))
}

/// The headers that a message gets as it is finished: they depend on the time
/// and on how its body is encoded.
pub open spec fn added_fields() -> Set<Seq<char>> {
    set!["Date"@, "MIME-Version"@, "Content-Transfer-Encoding"@]
}

/// Whether only the headers are set that `compose` sets.
pub open spec fn only_known(fields: Map<Seq<char>, Seq<char>>) -> bool {
    forall|key: Seq<char>| #[trigger]
        fields.contains_key(key) ==> key == "From"@ || key == "To"@ || key == "Subject"@ || key
            == "In-Reply-To"@ || key == "Content-Type"@
}

/// `lettre::message::MessageBuilder::body` with a `String`: finishes a message
/// that is a text of the content type that was set, with line ends made CRLF.
/// Whether that can be done depends on the headers alone. What it adds is the
/// `Date` and `Content-Transfer-Encoding` headers, of which nothing is said.
#[verifier::external_body]
fn plain_message(builder: lettre::message::MessageBuilder, body: String) -> (r: Result<
    lettre::Message,
    String,
>)
    requires
        only_known(fields(builder)),
        fields(builder).contains_key("Content-Type"@),
    ensures
        match r {
            Ok(m) => build_error(fields(builder)) is None && message_fields(m).remove_keys(added_fields()) == fields(
                builder,
            )
                && message_parts(m) == seq![text_part(fields(builder)["Content-Type"@], body@)],
            Err(e) => build_error(fields(builder)) == Some(e@),
        },
{
    match builder.body(body) {
        Ok(message) => Ok(message),
        Err(e) => Err(e.to_string()),
    }
}

/// `lettre::message::MultiPart::mixed` with a
/// `lettre::message::SinglePart::plain`: a body with a plain text, with line ends
/// made CRLF, as its only part.
#[verifier::external_body]
fn mixed_with_text(text: String) -> (r: lettre::message::MultiPart)
    ensures
        parts(r) == seq![text_part("text/plain; charset=utf-8"@, text@)],
{
    lettre::message::MultiPart::mixed().singlepart(lettre::message::SinglePart::plain(text))
}

/// `lettre::message::MultiPart::singlepart` with a part that is an attachment:
/// adds it at the end.
#[verifier::external_body]
fn with_attachment(
    body: lettre::message::MultiPart,
    content_type: lettre::message::header::ContentType,
    filename: &str,
    bytes: Vec<u8>,
) -> (r: lettre::message::MultiPart)
    ensures
        parts(r) == parts(body).push((content_type_text(content_type), Some(filename@), bytes@)),
{
    body.singlepart(
        lettre::message::SinglePart::builder()
            .header(content_type)
            .header(lettre::message::header::ContentDisposition::attachment(filename))
            .body(bytes),
    )
}

/// `lettre::message::MessageBuilder::multipart`: finishes a message with parts.
/// Whether that can be done depends on the headers alone. What it adds is the
/// `Date` and `MIME-Version` headers, of which nothing is said.
#[verifier::external_body]
fn mixed_message(builder: lettre::message::MessageBuilder, body: lettre::message::MultiPart) -> (r:
    Result<lettre::Message, String>)
    requires
        only_known(fields(builder)),
    ensures
        match r {
            Ok(m) => build_error(fields(builder)) is None && message_fields(m).remove_keys(added_fields()) == fields(
                builder,
            )
                && message_parts(m) == parts(body),
            Err(e) => build_error(fields(builder)) == Some(e@),
        },
{
    match builder.multipart(body) {
        Ok(message) => Ok(message),
        Err(e) => Err(e.to_string()),
    }
}

/// `lettre::Message::formatted`: the message as it is sent.
#[verifier::external_body]
pub(crate) fn render(message: &lettre::Message) -> (r: Vec<u8>)
    ensures
        r@ == rendered(*message),
{
    message.formatted()
}

/// The headers of a message: sender, recipient, subject and, in a reply, the
/// message that it replies to; or the error where an address is none.
pub open spec fn header_fields(
    from: Seq<char>,
    to: Seq<char>,
    subject: Seq<char>,
    in_reply_to: Option<Seq<char>>,
) -> Result<Map<Seq<char>, Seq<char>>, Seq<char>> {
    match (parsed_mailbox(from), parsed_mailbox(to)) {
        (Err(e), _) => Err(e),
        (Ok(_), Err(e)) => Err(e),
        (Ok(from), Ok(to)) => {
            let fields = no_fields().insert("From"@, from).insert("To"@, to).insert(
                "Subject"@,
                subject,
            );
            match in_reply_to {
                Some(id) => Ok(fields.insert("In-Reply-To"@, id)),
                None => Ok(fields),
            }
        },
    }
}

/// All headers of a message, or the error where an address is none. A message
/// without attachments is itself a plain text.
pub open spec fn letter_fields(letter: Letter) -> Result<Map<Seq<char>, Seq<char>>, Seq<char>> {
    match header_fields(letter.from, letter.to, letter.subject, letter.in_reply_to) {
        Err(e) => Err(e),
        Ok(fields) => if letter.files.len() == 0 {
            Ok(fields.insert("Content-Type"@, plain_text()))
        } else {
            Ok(fields)
        },
    }
}

/// The name that a file is attached under: that of the file, or else
/// `attachment.bin`.
pub open spec fn attached_name(path: Seq<char>) -> Seq<char> {
    match name_of(path) {
        Some(name) => name,
        None => "attachment.bin"@,
    }
}

/// The content type that a file is attached with: the one guessed from its
/// extension, or plain text where that is none.
pub open spec fn attached_type(path: Seq<char>) -> Seq<char> {
    match parsed_content_type(guessed_type(path)) {
        Some(content_type) => content_type,
        None => plain_text(),
    }
}

/// A file as a part of a message.
pub open spec fn file_part(file: (Seq<char>, Seq<u8>)) -> (Seq<char>, Option<Seq<char>>, Seq<u8>) {
    (attached_type(file.0), Some(attached_name(file.0)), file.1)
}

/// The parts of a message: its text, and then its attachments.
pub open spec fn letter_parts(letter: Letter) -> Seq<(Seq<char>, Option<Seq<char>>, Seq<u8>)> {
    seq![text_part(plain_text(), letter.body)] + letter.files.map_values(
        |f: (Seq<char>, Seq<u8>)| file_part(f),
    )
}

/// Why a message cannot be composed, where it cannot.
pub open spec fn compose_error(letter: Letter) -> Option<Seq<char>> {
    match letter_fields(letter) {
        Err(e) => Some(e),
        Ok(fields) => build_error(fields),
    }
}

/// Whether `message` is the one that `letter` describes: its headers, but for
/// those that depend on the time and on how it is encoded, and its parts.
pub open spec fn is_composed(message: lettre::Message, letter: Letter) -> bool {
    &&& letter_fields(letter) is Ok
    &&& message_fields(message).remove_keys(added_fields()) == letter_fields(letter)->Ok_0
    &&& message_parts(message) == letter_parts(letter)
}

/// The names of headers differ.
proof fn lemma_header_names()
    ensures
        "From"@ != "To"@,
        "From"@ != "Subject"@,
        "From"@ != "In-Reply-To"@,
        "From"@ != "Content-Type"@,
        "To"@ != "Subject"@,
        "To"@ != "In-Reply-To"@,
        "To"@ != "Content-Type"@,
        "Subject"@ != "In-Reply-To"@,
        "Subject"@ != "Content-Type"@,
        "In-Reply-To"@ != "Content-Type"@,
{
    reveal_strlit("From");
    reveal_strlit("To");
    reveal_strlit("Subject");
    reveal_strlit("In-Reply-To");
    reveal_strlit("Content-Type");
    assert("From"@.len() == 4);
    assert("To"@.len() == 2);
    assert("Subject"@.len() == 7);
    assert("In-Reply-To"@.len() == 11);
    assert("Content-Type"@.len() == 12);
}

/// Sets the headers of a message.
pub(crate) fn address(
    from: &str,
    to: &str,
    subject: &str,
    in_reply_to: &Option<String>,
) -> (r: Result<lettre::message::MessageBuilder, String>)
    ensures
        match r {
            Ok(builder) => header_fields(from@, to@, subject@, text_of(*in_reply_to)) == Ok::<
                Map<Seq<char>, Seq<char>>,
                Seq<char>,
            >(fields(builder)) && only_known(fields(builder)),
            Err(e) => header_fields(from@, to@, subject@, text_of(*in_reply_to)) == Err::<
                Map<Seq<char>, Seq<char>>,
                Seq<char>,
            >(e@),
        },
{
    proof {
        lemma_header_names();
    }
    let builder = match with_from(new_builder(), from) {
        Ok(builder) => builder,
        Err(e) => return Err(e),
    };
    let builder = match with_to(builder, to) {
        Ok(builder) => builder,
        Err(e) => return Err(e),
    };
    let builder = with_subject(builder, subject);
    match in_reply_to {
        Some(id) => Ok(with_in_reply_to(builder, id.as_str())),
        None => Ok(builder),
    }
}

/// The name that a file is attached under.
pub fn attachment_name(path: &str) -> (r: String)
    ensures
        r@ == attached_name(path@),
{
    match path::file_name(path) {
        Some(name) => name,
        None => "attachment.bin".to_string(),
    }
}

/// Composes a message.
pub fn compose(draft: Draft) -> (r: Result<lettre::Message, String>)
    ensures
        match r {
            Ok(message) => compose_error(draft@) is None && is_composed(message, draft@),
            Err(e) => compose_error(draft@) == Some(e@),
        },
{
    proof {
        lemma_header_names();
    }
    let ghost given = draft@;
    let builder = match address(
        draft.from.as_str(),
        draft.to.as_str(),
        draft.subject.as_str(),
        &draft.in_reply_to,
    ) {
        Ok(builder) => builder,
        Err(e) => return Err(e),
    };
    let files = draft.files;
    let ghost all = given.files.map_values(|f: (Seq<char>, Seq<u8>)| file_part(f));
    if files.len() == 0 {
        let builder = with_content_type(builder, text_plain());
        assert(all =~= seq![]);
        assert(letter_parts(given) =~= seq![text_part(plain_text(), given.body)]);
        return plain_message(builder, draft.body);
    }
    let count: usize = files.len();
    let mut body = mixed_with_text(draft.body);
    let mut rest = files;
    assert(parts(body) =~= seq![text_part(plain_text(), given.body)] + all.take(0));
    assert(file_views(rest@) =~= given.files.skip(0));
    let mut done: usize = 0;
    while done < count
        invariant
            done <= count == given.files.len() == all.len(),
            rest@.len() == count - done,
            file_views(rest@) == given.files.skip(done as int),
            all == given.files.map_values(|f: (Seq<char>, Seq<u8>)| file_part(f)),
            parts(body) == seq![text_part(plain_text(), given.body)] + all.take(done as int),
        decreases count - done,
    {
        let ghost before = file_views(rest@);
        let file = rest.remove(0);
        assert(before[0] == (file.path@, file.bytes@));
        assert(given.files[done as int] == before[0]);
        let name = attachment_name(file.path.as_str());
        let content_type = match parse_content_type(guess_type(file.path.as_str()).as_str()) {
            Some(content_type) => content_type,
            None => text_plain(),
        };
        body = with_attachment(body, content_type, name.as_str(), file.bytes);
        proof {
            assert(all[done as int] == file_part(given.files[done as int]));
            assert(all.take(done + 1) =~= all.take(done as int).push(all[done as int]));
            assert(parts(body) =~= seq![text_part(plain_text(), given.body)] + all.take(done + 1));
            assert(file_views(rest@) =~= before.skip(1));
            assert(before.skip(1) =~= given.files.skip(done + 1));
        }
        done += 1;
    }
    assert(all.take(all.len() as int) =~= all);
    mixed_message(builder, body)
}

/// A line of a text keeps its characters and gets the line end that is sent, a
/// carriage return and a line feed, unless it had it; a text without line feeds is
/// kept as it is.
pub proof fn law_only_line_ends_change(line: Seq<char>, rest: Seq<char>)
    requires
        !line.contains('\n'),
    ensures
        with_line_ends(line) == line,
        line.len() > 0 && line.last() == '\r' ==> with_line_ends(line + "\n"@ + rest) == line
            + "\n"@ + with_line_ends(rest),
        !(line.len() > 0 && line.last() == '\r') ==> with_line_ends(line + "\n"@ + rest) == line
            + "\r\n"@ + with_line_ends(rest),
{
    reveal_strlit("\n");
    reveal_strlit("\r\n");
    lemma_line_kept(line);
    let head = line.push('\n');
    assert(line + "\n"@ =~= head);
    assert(head.drop_last() =~= line);
    assert(line + "\r\n"@ =~= line.push('\r').push('\n'));
    lemma_line_ends_behind(head, rest);
}

/// A text without line feeds is kept as it is.
proof fn lemma_line_kept(line: Seq<char>)
    requires
        !line.contains('\n'),
    ensures
        with_line_ends(line) == line,
    decreases line.len(),
{
    if line.len() > 0 {
        let front = line.drop_last();
        assert(line.contains(line.last()));
        assert(!front.contains('\n')) by {
            if front.contains('\n') {
                let i = choose|i: int| 0 <= i < front.len() && front[i] == '\n';
                assert(line[i] == '\n');
            }
        }
        lemma_line_kept(front);
        assert(front.push(line.last()) =~= line);
    }
}

/// What follows a line feed gets its line ends by itself.
proof fn lemma_line_ends_behind(head: Seq<char>, rest: Seq<char>)
    requires
        head.len() > 0,
        head.last() == '\n',
    ensures
        with_line_ends(head + rest) == with_line_ends(head) + with_line_ends(rest),
    decreases rest.len(),
{
    if rest.len() == 0 {
        assert(head + rest =~= head);
        assert(with_line_ends(head) + with_line_ends(rest) =~= with_line_ends(head));
    } else {
        let front = rest.drop_last();
        let s = head + rest;
        lemma_line_ends_behind(head, front);
        assert(s.drop_last() =~= head + front);
        assert(s.last() == rest.last());
        if rest.len() > 1 {
            assert(s[s.len() - 2] == rest[rest.len() - 2]);
        } else {
            assert(s[s.len() - 2] == head.last());
        }
        assert(with_line_ends(s) =~= with_line_ends(head) + with_line_ends(rest));
    }
}

/// A composed message holds the text of the draft as its first part, and behind it
/// one part for each file, in order: with all the bytes of the file, under the
/// file's name, and with the type that goes with it.
pub proof fn law_message_holds_text_and_files(message: lettre::Message, draft: Draft)
    requires
        is_composed(message, draft@),
    ensures
        message_parts(message).len() == draft.files@.len() + 1,
        message_parts(message)[0] == (
            "text/plain; charset=utf-8"@,
            None::<Seq<char>>,
            encode_utf8(with_line_ends(draft.body@)),
        ),
        forall|i: int|
            #![trigger draft.files@[i]]
            0 <= i < draft.files@.len() ==> {
                let part = message_parts(message)[i + 1];
                let file = draft.files@[i];
                &&& part.2.len() == file.bytes@.len()
                &&& forall|k: int| 0 <= k < file.bytes@.len() ==> #[trigger] part.2[k] == file.bytes@[k]
                &&& match name_of(file.path@) {
                    Some(name) => part.1 == Some(name),
                    None => part.1 == Some("attachment.bin"@),
                }
                &&& match parsed_content_type(guessed_type(file.path@)) {
                    Some(content_type) => part.0 == content_type,
                    None => part.0 == "text/plain; charset=utf-8"@,
                }
            },
{
    law_letter_is_carried_whole(message, draft@);
    assert forall|i: int|
        #![trigger draft.files@[i]]
        0 <= i < draft.files@.len() implies {
        let part = message_parts(message)[i + 1];
        let file = draft.files@[i];
        &&& part.2.len() == file.bytes@.len()
        &&& forall|k: int| 0 <= k < file.bytes@.len() ==> #[trigger] part.2[k] == file.bytes@[k]
        &&& match name_of(file.path@) {
            Some(name) => part.1 == Some(name),
            None => part.1 == Some("attachment.bin"@),
        }
        &&& match parsed_content_type(guessed_type(file.path@)) {
            Some(content_type) => part.0 == content_type,
            None => part.0 == "text/plain; charset=utf-8"@,
        }
    } by {
        assert(draft@.files[i] == (draft.files@[i].path@, draft.files@[i].bytes@));
    }
}

/// A message holds the text of its letter as its first part, and behind it one
/// part for each file, in order, with all the bytes of the file, under its name and
/// with the type that goes with it.
pub proof fn law_letter_is_carried_whole(message: lettre::Message, letter: Letter)
    requires
        is_composed(message, letter),
    ensures
        message_parts(message).len() == letter.files.len() + 1,
        message_parts(message)[0] == (
            "text/plain; charset=utf-8"@,
            None::<Seq<char>>,
            encode_utf8(with_line_ends(letter.body)),
        ),
        forall|i: int|
            #![trigger letter.files[i]]
            0 <= i < letter.files.len() ==> {
                let part = message_parts(message)[i + 1];
                let (path, bytes) = letter.files[i];
                &&& part.2 == bytes
                &&& match name_of(path) {
                    Some(name) => part.1 == Some(name),
                    None => part.1 == Some("attachment.bin"@),
                }
                &&& match parsed_content_type(guessed_type(path)) {
                    Some(content_type) => part.0 == content_type,
                    None => part.0 == "text/plain; charset=utf-8"@,
                }
            },
{
    let all = letter.files.map_values(|f: (Seq<char>, Seq<u8>)| file_part(f));
    assert(all.len() == letter.files.len());
    assert forall|i: int|
        #![trigger letter.files[i]]
        0 <= i < letter.files.len() implies {
        let part = message_parts(message)[i + 1];
        let (path, bytes) = letter.files[i];
        &&& part.2 == bytes
        &&& match name_of(path) {
            Some(name) => part.1 == Some(name),
            None => part.1 == Some("attachment.bin"@),
        }
        &&& match parsed_content_type(guessed_type(path)) {
            Some(content_type) => part.0 == content_type,
            None => part.0 == "text/plain; charset=utf-8"@,
        }
    } by {
        assert(message_parts(message)[i + 1] == all[i]);
    }
}

/// The headers that are set are none of those that are added.
proof fn lemma_added_names()
    ensures
        !added_fields().contains("From"@),
        !added_fields().contains("To"@),
        !added_fields().contains("Subject"@),
        !added_fields().contains("In-Reply-To"@),
        !added_fields().contains("Content-Type"@),
{
    reveal_strlit("From");
    reveal_strlit("To");
    reveal_strlit("Subject");
    reveal_strlit("In-Reply-To");
    reveal_strlit("Content-Type");
    reveal_strlit("Date");
    reveal_strlit("MIME-Version");
    reveal_strlit("Content-Transfer-Encoding");
    assert("From"@[0] == 'F');
    assert("Date"@[0] == 'D');
    assert("Content-Type"@[0] == 'C');
    assert("MIME-Version"@[0] == 'M');
    assert("Content-Transfer-Encoding"@.len() == 25);
}

/// A message says whom it is from, whom it is to and what it is about, exactly as
/// its letter does, names the message that it replies to if it is a reply, and
/// only then, and has no other headers but those of its encoding and its date.
pub proof fn law_headers_are_those_of_the_letter(message: lettre::Message, letter: Letter)
    requires
        is_composed(message, letter),
    ensures
        parsed_mailbox(letter.from) is Ok,
        parsed_mailbox(letter.to) is Ok,
        message_fields(message).contains_key("From"@),
        message_fields(message)["From"@] == parsed_mailbox(letter.from)->Ok_0,
        message_fields(message).contains_key("To"@),
        message_fields(message)["To"@] == parsed_mailbox(letter.to)->Ok_0,
        message_fields(message).contains_key("Subject"@),
        message_fields(message)["Subject"@] == letter.subject,
        message_fields(message).contains_key("In-Reply-To"@) <==> letter.in_reply_to is Some,
        letter.in_reply_to matches Some(id) ==> message_fields(message)["In-Reply-To"@] == id,
        letter.files.len() == 0 ==> message_fields(message).contains_key("Content-Type"@)
            && message_fields(message)["Content-Type"@] == "text/plain; charset=utf-8"@,
        forall|key: Seq<char>| #[trigger]
            message_fields(message).contains_key(key) ==> key == "From"@ || key == "To"@ || key
                == "Subject"@ || key == "In-Reply-To"@ || key == "Content-Type"@ || key == "Date"@
                || key == "MIME-Version"@ || key == "Content-Transfer-Encoding"@,
{
    lemma_header_names();
    lemma_added_names();
    let all = message_fields(message);
    let set = all.remove_keys(added_fields());
    let given = letter_fields(letter)->Ok_0;
    assert(set == given);
    assert forall|key: Seq<char>| !added_fields().contains(key) implies (#[trigger] all.contains_key(
        key,
    ) <==> given.contains_key(key)) && (given.contains_key(key) ==> all[key] == given[key]) by {
        assert(set.contains_key(key) <==> all.contains_key(key));
    }
}

/// A message can be composed exactly if both addresses are ones and the headers
/// are such that a message can be built with them; where it cannot, the error is
/// that of the sender's address, or else that of the recipient's, or else that of
/// the headers.
pub proof fn law_when_a_message_can_be_composed(
    letter: Letter,
    headers: Map<Seq<char>, Seq<char>>,
)
    ensures
        parsed_mailbox(letter.from) matches Err(e) ==> compose_error(letter) == Some(e),
        parsed_mailbox(letter.from) is Ok ==> (parsed_mailbox(letter.to) matches Err(e)
            ==> compose_error(letter) == Some(e)),
        parsed_mailbox(letter.from) is Ok && parsed_mailbox(letter.to) is Ok && (forall|
            key: Seq<char>,
        | #[trigger]
            headers.contains_key(key) <==> key == "From"@ || key == "To"@ || key == "Subject"@ || (
            key == "In-Reply-To"@ && letter.in_reply_to is Some) || (key == "Content-Type"@
                && letter.files.len() == 0)) && headers["From"@] == parsed_mailbox(
            letter.from,
        )->Ok_0 && headers["To"@] == parsed_mailbox(letter.to)->Ok_0 && headers["Subject"@]
            == letter.subject && (letter.in_reply_to is Some ==> headers["In-Reply-To"@]
            == letter.in_reply_to->0) && (letter.files.len() == 0 ==> headers["Content-Type"@]
            == "text/plain; charset=utf-8"@) ==> compose_error(letter) == build_error(headers),
{
    lemma_header_names();
    if parsed_mailbox(letter.from) is Ok && parsed_mailbox(letter.to) is Ok && (forall|
        key: Seq<char>,
    | #[trigger]
        headers.contains_key(key) <==> key == "From"@ || key == "To"@ || key == "Subject"@ || (key
            == "In-Reply-To"@ && letter.in_reply_to is Some) || (key == "Content-Type"@
            && letter.files.len() == 0)) && headers["From"@] == parsed_mailbox(letter.from)->Ok_0
        && headers["To"@] == parsed_mailbox(letter.to)->Ok_0 && headers["Subject"@]
        == letter.subject && (letter.in_reply_to is Some ==> headers["In-Reply-To"@]
        == letter.in_reply_to->0) && (letter.files.len() == 0 ==> headers["Content-Type"@]
        == "text/plain; charset=utf-8"@) {
        assert(headers =~= letter_fields(letter)->Ok_0);
    }
}

/// A letter says all that its draft says.
pub proof fn law_a_letter_is_its_draft(draft: Draft)
    ensures
        draft@.from == draft.from@,
        draft@.to == draft.to@,
        draft@.subject == draft.subject@,
        draft@.body == draft.body@,
        match draft.in_reply_to {
            Some(id) => draft@.in_reply_to == Some(id@),
            None => draft@.in_reply_to is None,
        },
        draft@.files.len() == draft.files@.len(),
        forall|i: int|
            0 <= i < draft.files@.len() ==> #[trigger] draft@.files[i] == (
                draft.files@[i].path@,
                draft.files@[i].bytes@,
            ),
{
}

}
