//! Parsed messages: a tree of MIME parts with what the mail logic reads of
//! each, filled from `mailparse`.
use vstd::prelude::*;

use crate::text;
use crate::text::lowered;

verus! {

/// What is known of a message part and of the parts below it.
pub struct Part {
    /// The headers as name and value, in order.
    pub headers: Seq<(Seq<char>, Seq<char>)>,
    /// The media type, such as `text/plain`.
    pub mimetype: Seq<char>,
    /// The parameters of the content type.
    pub type_params: Seq<(Seq<char>, Seq<char>)>,
    /// Whether the content disposition is `attachment`.
    pub attachment: bool,
    /// The parameters of the content disposition.
    pub disposition_params: Seq<(Seq<char>, Seq<char>)>,
    /// The body as text, where it can be decoded as one.
    pub text: Option<Seq<char>>,
    /// The decoded body, or why it cannot be decoded.
    pub content: Result<Seq<u8>, Seq<char>>,
    /// The parts that this part is made of.
    pub subparts: Seq<Part>,
}

/// A message part and the parts below it.
pub struct MailPart {
    pub headers: Vec<(String, String)>,
    pub mimetype: String,
    pub type_params: Vec<(String, String)>,
    pub attachment: bool,
    pub disposition_params: Vec<(String, String)>,
    pub text: Option<String>,
    pub content: Result<Vec<u8>, String>,
    pub subparts: Vec<MailPart>,
}

/// Named values, as texts.
pub open spec fn pair_texts(pairs: Seq<(String, String)>) -> Seq<(Seq<char>, Seq<char>)> {
    pairs.map_values(|p: (String, String)| (p.0@, p.1@))
}

/// The text of an optional string.
pub open spec fn text_of(s: Option<String>) -> Option<Seq<char>> {
    match s {
        Some(t) => Some(t@),
        None => None,
    }
}

/// The bytes, or the text of the error.
pub open spec fn bytes_of(r: Result<Vec<u8>, String>) -> Result<Seq<u8>, Seq<char>> {
    match r {
        Ok(b) => Ok(b@),
        Err(e) => Err(e@),
    }
}

/// What is known of a message part.
pub open spec fn part_view(part: MailPart) -> Part
    decreases part,
{
    Part {
        headers: pair_texts(part.headers@),
        mimetype: part.mimetype@,
        type_params: pair_texts(part.type_params@),
        attachment: part.attachment,
        disposition_params: pair_texts(part.disposition_params@),
        text: text_of(part.text),
        content: bytes_of(part.content),
        subparts: part_views(part.subparts@),
    }
}

/// What is known of each of several message parts.
pub open spec fn part_views(parts: Seq<MailPart>) -> Seq<Part>
    decreases parts,
{
    if parts.len() == 0 {
        seq![]
    } else {
        part_views(parts.drop_last()).push(part_view(parts.last()))
    }
}

impl View for MailPart {
    type V = Part;

    open spec fn view(&self) -> Part {
        part_view(*self)
    }
}

/// The outcome of parsing a message, by its view.
pub open spec fn outcome(message: Result<MailPart, String>) -> Result<Part, Seq<char>> {
    match message {
        Ok(part) => Ok(part@),
        Err(e) => Err(e@),
    }
}

/// The views of message parts are as many and in the same order.
pub proof fn lemma_part_views(parts: Seq<MailPart>)
    ensures
        part_views(parts).len() == parts.len(),
        forall|i: int| 0 <= i < parts.len() ==> #[trigger] part_views(parts)[i] == parts[i]@,
    decreases parts.len(),
{
    if parts.len() > 0 {
        lemma_part_views(parts.drop_last());
    }
}

/// The value of the first pair called `key`.
pub open spec fn value_of(pairs: Seq<(Seq<char>, Seq<char>)>, key: Seq<char>) -> Option<Seq<char>>
    decreases pairs.len(),
{
    if pairs.len() == 0 {
        None
    } else if pairs[0].0 == key {
        Some(pairs[0].1)
    } else {
        value_of(pairs.skip(1), key)
    }
}

/// The value of the first header called `key`; the case of ASCII letters does
/// not matter.
pub open spec fn header_of(headers: Seq<(Seq<char>, Seq<char>)>, key: Seq<char>) -> Option<Seq<char>>
    decreases headers.len(),
{
    if headers.len() == 0 {
        None
    } else if lowered(headers[0].0) == lowered(key) {
        Some(headers[0].1)
    } else {
        header_of(headers.skip(1), key)
    }
}

/// Finds the value of a parameter.
pub fn param(pairs: &Vec<(String, String)>, key: &str) -> (r: Option<String>)
    ensures
        text_of(r) == value_of(pair_texts(pairs@), key@),
{
    let ghost all = pair_texts(pairs@);
    let mut i: usize = 0;
    assert(all.skip(0) =~= all);
    while i < pairs.len()
        invariant
            i <= pairs@.len(),
            all == pair_texts(pairs@),
            value_of(all, key@) == value_of(all.skip(i as int), key@),
        decreases pairs@.len() - i,
    {
        assert(all.skip(i as int).skip(1) =~= all.skip(i + 1));
        if text::same(pairs[i].0.as_str(), key) {
            return Some(pairs[i].1.clone());
        }
        i += 1;
    }
    None
}

/// Finds the value of a header.
pub fn first_header(headers: &Vec<(String, String)>, key: &str) -> (r: Option<String>)
    ensures
        text_of(r) == header_of(pair_texts(headers@), key@),
{
    let ghost all = pair_texts(headers@);
    let mut i: usize = 0;
    assert(all.skip(0) =~= all);
    while i < headers.len()
        invariant
            i <= headers@.len(),
            all == pair_texts(headers@),
            header_of(all, key@) == header_of(all.skip(i as int), key@),
        decreases headers@.len() - i,
    {
        assert(all.skip(i as int).skip(1) =~= all.skip(i + 1));
        if text::same_ignoring_case(headers[i].0.as_str(), key) {
            return Some(headers[i].1.clone());
        }
        i += 1;
    }
    None
}

/// A message as `mailparse` holds it.
#[verifier::external_type_specification]
#[verifier::external_body]
pub struct ExParsedMail<'a>(mailparse::ParsedMail<'a>);

/// What a parsed message holds: of each part what `Part` lists.
pub uninterp spec fn held(mail: mailparse::ParsedMail<'_>) -> Part;

/// What parsing `raw` gives: the message's parts, or the text of the error.
pub uninterp spec fn parsed(raw: Seq<u8>) -> Result<Part, Seq<char>>;

/// `mailparse::parse_mail`: parses a raw message. The result depends on the
/// bytes alone.
#[verifier::external_body]
fn parse_mail(raw: &[u8]) -> (r: Result<mailparse::ParsedMail<'_>, String>)
    ensures
        match r {
            Ok(mail) => parsed(raw@) == Ok::<Part, Seq<char>>(held(mail)),
            Err(e) => parsed(raw@) == Err::<Part, Seq<char>>(e@),
        },
{
    match mailparse::parse_mail(raw) {
        Ok(mail) => Ok(mail),
        Err(e) => Err(e.to_string()),
    }
}

/// `mailparse::ParsedMail::subparts`: how many parts the message is made of.
#[verifier::external_body]
fn subpart_count(mail: &mailparse::ParsedMail<'_>) -> (n: usize)
    ensures
        n == held(*mail).subparts.len(),
{
    mail.subparts.len()
}

/// `mailparse::ParsedMail::subparts`: one of the parts of the message.
#[verifier::external_body]
fn subpart<'a, 'b>(mail: &'b mailparse::ParsedMail<'a>, i: usize) -> (r: &'b mailparse::ParsedMail<'a>)
    requires
        i < held(*mail).subparts.len(),
    ensures
        held(*r) == held(*mail).subparts[i as int],
{
    &mail.subparts[i]
}

/// `mailparse::MailHeader::get_key` and `get_value` on each of the message's
/// headers, in order.
#[verifier::external_body]
fn headers_of(mail: &mailparse::ParsedMail<'_>) -> (r: Vec<(String, String)>)
    ensures
        pair_texts(r@) == held(*mail).headers,
{
    mail.headers.iter().map(|h| (h.get_key(), h.get_value())).collect()
}

/// `mailparse::ParsedMail::ctype`: the media type.
#[verifier::external_body]
fn mimetype_of(mail: &mailparse::ParsedMail<'_>) -> (r: String)
    ensures
        r@ == held(*mail).mimetype,
{
    mail.ctype.mimetype.clone()
}

/// `mailparse::ParsedMail::ctype`: the parameters of the content type.
#[verifier::external_body]
fn type_params_of(mail: &mailparse::ParsedMail<'_>) -> (r: Vec<(String, String)>)
    ensures
        pair_texts(r@) == held(*mail).type_params,
{
    mail.ctype.params.iter().map(|(k, v)| (k.clone(), v.clone())).collect()
}

/// How a part is meant to be shown.
pub enum Disposition {
    Inline,
    Attachment,
    FormData,
    Extension(String),
}

/// `mailparse::ParsedMail::get_content_disposition`: how the part is meant to be
/// shown, and the parameters of that.
#[verifier::external_body]
fn disposition_of(mail: &mailparse::ParsedMail<'_>) -> (r: (Disposition, Vec<(String, String)>))
    ensures
        (r.0 is Attachment) == held(*mail).attachment,
        pair_texts(r.1@) == held(*mail).disposition_params,
{
    let d = mail.get_content_disposition();
    let kind = match d.disposition {
        mailparse::DispositionType::Inline => Disposition::Inline,
        mailparse::DispositionType::Attachment => Disposition::Attachment,
        mailparse::DispositionType::FormData => Disposition::FormData,
        mailparse::DispositionType::Extension(name) => Disposition::Extension(name),
    };
    (kind, d.params.into_iter().collect())
}

/// `mailparse::ParsedMail::get_body`: the body as text, if it is one.
#[verifier::external_body]
fn text_body(mail: &mailparse::ParsedMail<'_>) -> (r: Option<String>)
    ensures
        text_of(r) == held(*mail).text,
{
    mail.get_body().ok()
}

/// `mailparse::ParsedMail::get_body_raw`: the decoded body, or the text of the
/// error.
#[verifier::external_body]
fn raw_body(mail: &mailparse::ParsedMail<'_>) -> (r: Result<Vec<u8>, String>)
    ensures
        bytes_of(r) == held(*mail).content,
{
    match mail.get_body_raw() {
        Ok(bytes) => Ok(bytes),
        Err(e) => Err(e.to_string()),
    }
}

/// Copies what the mail logic reads out of a parsed message.
fn load(mail: &mailparse::ParsedMail<'_>) -> (r: MailPart)
    ensures
        r@ == held(*mail),
    decreases held(*mail),
{
    let count = subpart_count(mail);
    let mut subparts: Vec<MailPart> = Vec::new();
    let mut i: usize = 0;
    while i < count
        invariant
            i <= count == held(*mail).subparts.len(),
            subparts@.len() == i,
            forall|k: int| 0 <= k < i ==> (#[trigger] subparts@[k])@ == held(*mail).subparts[k],
        decreases count - i,
    {
        let sub = subpart(mail, i);
        assert(decreases_to!(held(*mail) => held(*mail).subparts[i as int]));
        subparts.push(load(sub));
        i += 1;
    }
    let (disposition, disposition_params) = disposition_of(mail);
    let attachment = match disposition {
        Disposition::Attachment => true,
        _ => false,
    };
    let r = MailPart {
        headers: headers_of(mail),
        mimetype: mimetype_of(mail),
        type_params: type_params_of(mail),
        attachment,
        disposition_params,
        text: text_body(mail),
        content: raw_body(mail),
        subparts,
    };
    proof {
        lemma_part_views(r.subparts@);
    }
    assert(r@.subparts =~= held(*mail).subparts);
    r
}

/// Parses a raw message.
pub fn parse_message(raw: &[u8]) -> (r: Result<MailPart, String>)
    ensures
        outcome(r) == parsed(raw@),
{
    match parse_mail(raw) {
        Ok(mail) => Ok(load(&mail)),
        Err(e) => Err(e),
    }
}

/// What parsing a header block gives: its headers as name and value, in order,
/// or the text of the error.
pub uninterp spec fn parsed_headers(raw: Seq<u8>) -> Result<Seq<(Seq<char>, Seq<char>)>, Seq<char>>;

/// `mailparse::parse_headers`: the headers of a header block. The result depends
/// on the bytes alone.
#[verifier::external_body]
pub(crate) fn parse_headers(raw: &[u8]) -> (r: Result<Vec<(String, String)>, String>)
    ensures
        match r {
            Ok(headers) => parsed_headers(raw@) == Ok::<Seq<(Seq<char>, Seq<char>)>, Seq<char>>(
                pair_texts(headers@),
            ),
            Err(e) => parsed_headers(raw@) == Err::<Seq<(Seq<char>, Seq<char>)>, Seq<char>>(e@),
        },
{
    match mailparse::parse_headers(raw) {
        Ok((headers, _)) => Ok(headers.iter().map(|h| (h.get_key(), h.get_value())).collect()),
        Err(e) => Err(e.to_string()),
    }
}

/// The value of a name is that of the first pair with exactly this name, and
/// there is none only where no pair has it.
pub proof fn law_value_is_that_of_the_first(
    pairs: Seq<(Seq<char>, Seq<char>)>,
    key: Seq<char>,
)
    ensures
        match value_of(pairs, key) {
            Some(value) => exists|i: int|
                0 <= i < pairs.len() && #[trigger] pairs[i] == (key, value) && forall|j: int|
                    0 <= j < i ==> (#[trigger] pairs[j]).0 != key,
            None => forall|i: int| 0 <= i < pairs.len() ==> (#[trigger] pairs[i]).0 != key,
        },
    decreases pairs.len(),
{
    if pairs.len() > 0 {
        if pairs[0].0 == key {
            assert(pairs[0] == (key, pairs[0].1));
        } else {
            let rest = pairs.skip(1);
            law_value_is_that_of_the_first(rest, key);
            match value_of(pairs, key) {
                Some(value) => {
                    let i = choose|i: int|
                        0 <= i < rest.len() && #[trigger] rest[i] == (key, value) && forall|j: int|
                            0 <= j < i ==> (#[trigger] rest[j]).0 != key;
                    assert(pairs[i + 1] == (key, value));
                    assert forall|j: int| 0 <= j < i + 1 implies (#[trigger] pairs[j]).0
                        != key by {
                        if j > 0 {
                            assert(pairs[j] == rest[j - 1]);
                        }
                    }
                },
                None => {
                    assert forall|i: int| 0 <= i < pairs.len() implies (#[trigger] pairs[i]).0
                        != key by {
                        if i > 0 {
                            assert(pairs[i] == rest[i - 1]);
                        }
                    }
                },
            }
        }
    }
}

/// The value of a header is that of the first header with this name, whatever
/// the case of its letters, and there is none only where no header has it.
pub proof fn law_header_is_the_first(headers: Seq<(Seq<char>, Seq<char>)>, key: Seq<char>)
    ensures
        match header_of(headers, key) {
            Some(value) => exists|i: int|
                0 <= i < headers.len() && lowered((#[trigger] headers[i]).0) == lowered(key)
                    && headers[i].1 == value && forall|j: int|
                    0 <= j < i ==> lowered((#[trigger] headers[j]).0) != lowered(key),
            None => forall|i: int|
                0 <= i < headers.len() ==> lowered((#[trigger] headers[i]).0) != lowered(key),
        },
    decreases headers.len(),
{
    if headers.len() > 0 {
        if lowered(headers[0].0) == lowered(key) {
            assert(headers[0].1 == header_of(headers, key)->0);
        } else {
            let rest = headers.skip(1);
            law_header_is_the_first(rest, key);
            match header_of(headers, key) {
                Some(value) => {
                    let i = choose|i: int|
                        0 <= i < rest.len() && lowered((#[trigger] rest[i]).0) == lowered(key)
                            && rest[i].1 == value && forall|j: int|
                            0 <= j < i ==> lowered((#[trigger] rest[j]).0) != lowered(key);
                    assert(headers[i + 1] == rest[i]);
                    assert forall|j: int| 0 <= j < i + 1 implies lowered((#[trigger] headers[j]).0)
                        != lowered(key) by {
                        if j > 0 {
                            assert(headers[j] == rest[j - 1]);
                        }
                    }
                },
                None => {
                    assert forall|i: int| 0 <= i < headers.len() implies lowered(
                        (#[trigger] headers[i]).0,
                    ) != lowered(key) by {
                        if i > 0 {
                            assert(headers[i] == rest[i - 1]);
                        }
                    }
                },
            }
        }
    }
}

/// What is known of a part is all that it holds, each thing as it is.
pub proof fn law_a_part_is_known_whole(part: MailPart)
    ensures
        part@.mimetype == part.mimetype@,
        part@.attachment == part.attachment,
        match part.text {
            Some(text) => part@.text == Some(text@),
            None => part@.text is None,
        },
        match part.content {
            Ok(bytes) => part@.content == Ok::<Seq<u8>, Seq<char>>(bytes@),
            Err(e) => part@.content == Err::<Seq<u8>, Seq<char>>(e@),
        },
        part@.headers.len() == part.headers@.len(),
        forall|i: int|
            0 <= i < part.headers@.len() ==> #[trigger] part@.headers[i] == (
                part.headers@[i].0@,
                part.headers@[i].1@,
            ),
        part@.type_params.len() == part.type_params@.len(),
        forall|i: int|
            0 <= i < part.type_params@.len() ==> #[trigger] part@.type_params[i] == (
                part.type_params@[i].0@,
                part.type_params@[i].1@,
            ),
        part@.disposition_params.len() == part.disposition_params@.len(),
        forall|i: int|
            0 <= i < part.disposition_params@.len() ==> #[trigger] part@.disposition_params[i] == (
                part.disposition_params@[i].0@,
                part.disposition_params@[i].1@,
            ),
        part@.subparts.len() == part.subparts@.len(),
        forall|i: int|
            0 <= i < part.subparts@.len() ==> #[trigger] part@.subparts[i] == part.subparts@[i]@,
{
    lemma_part_views(part.subparts@);
}

/// Pairs are known by their names and values, as many and in order; a text, bytes
/// or a message that may be missing are known as they are where they are there, and
/// by the error where there is one.
pub proof fn law_values_are_taken_as_they_are(
    pairs: Seq<(String, String)>,
    text: Option<String>,
    bytes: Result<Vec<u8>, String>,
    message: Result<MailPart, String>,
)
    ensures
        pair_texts(pairs).len() == pairs.len(),
        forall|i: int|
            0 <= i < pairs.len() ==> #[trigger] pair_texts(pairs)[i] == (pairs[i].0@, pairs[i].1@),
        match text {
            Some(t) => text_of(text) == Some(t@),
            None => text_of(text) is None,
        },
        match bytes {
            Ok(b) => bytes_of(bytes) == Ok::<Seq<u8>, Seq<char>>(b@),
            Err(e) => bytes_of(bytes) == Err::<Seq<u8>, Seq<char>>(e@),
        },
        match message {
            Ok(part) => outcome(message) == Ok::<Part, Seq<char>>(part@),
            Err(e) => outcome(message) == Err::<Part, Seq<char>>(e@),
        },
{
}

}
