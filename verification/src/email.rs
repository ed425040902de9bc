//! What is shown of a message: its summary in a listing, its headers and its
//! body as text.
use vstd::prelude::*;

use crate::html;
use crate::html::readable;
use crate::mime;
use crate::mime::{header_of, outcome, pair_texts, parsed, text_of, value_of, MailPart, Part};
use crate::text;
use crate::text::{joined, lowered, views};

verus! {

/// The most characters of a body that are shown.
pub const SNIPPET_CHARS: usize = 8000;

/// A message as a listing shows it.
#[derive(Debug)]
pub struct EmailSummary {
    pub uid: u32,
    pub from: String,
    pub subject: String,
    pub date: String,
}

/// An `EmailSummary` as texts.
#[verifier::ext_equal]
pub struct Summary {
    pub uid: u32,
    pub from: Seq<char>,
    pub subject: Seq<char>,
    pub date: Seq<char>,
}

impl View for EmailSummary {
    type V = Summary;

    open spec fn view(&self) -> Summary {
        Summary { uid: self.uid, from: self.from@, subject: self.subject@, date: self.date@ }
    }
}

/// A header's value, or nothing where there is no such header.
pub open spec fn header_or_empty(headers: Seq<(Seq<char>, Seq<char>)>, key: Seq<char>) -> Seq<char> {
    match header_of(headers, key) {
        Some(value) => value,
        None => seq![],
    }
}

/// The summary of a message that was parsed, or not, from what was fetched
/// under `uid`.
pub open spec fn summary(uid: u32, message: Result<Part, Seq<char>>) -> Summary {
    match message {
        Ok(part) => Summary {
            uid,
            from: header_or_empty(part.headers, "From"@),
            subject: header_or_empty(part.headers, "Subject"@),
            date: header_or_empty(part.headers, "Date"@),
        },
        Err(_) => Summary { uid, from: seq![], subject: "(unparseable)"@, date: seq![] },
    }
}

/// Finds a header's value.
pub(crate) fn header_value(headers: &Vec<(String, String)>, key: &str) -> (r: String)
    ensures
        r@ == header_or_empty(pair_texts(headers@), key@),
{
    match mime::first_header(headers, key) {
        Some(value) => value,
        None => String::new(),
    }
}

/// The summary of a message, from the outcome of parsing it.
pub fn summarize(uid: u32, message: Result<MailPart, String>) -> (r: EmailSummary)
    ensures
        r@ == summary(uid, outcome(message)),
{
    match message {
        Ok(part) => EmailSummary {
            uid,
            from: header_value(&part.headers, "From"),
            subject: header_value(&part.headers, "Subject"),
            date: header_value(&part.headers, "Date"),
        },
        Err(_) => EmailSummary {
            uid,
            from: String::new(),
            subject: "(unparseable)".to_string(),
            date: String::new(),
        },
    }
}

/// The summary of the raw message `raw`.
pub fn parse_summary(uid: u32, raw: &[u8]) -> (r: EmailSummary)
    ensures
        r@ == summary(uid, parsed(raw@)),
{
    summarize(uid, mime::parse_message(raw))
}

/// Whether a part is only there to hold others.
pub open spec fn is_multipart(part: Part) -> bool {
    "multipart/"@.is_prefix_of(part.mimetype)
}

/// The parts of a message that have content of their own, in reading order.
pub open spec fn leaves(part: Part) -> Seq<Part>
    decreases part,
{
    if is_multipart(part) {
        all_leaves(part.subparts)
    } else {
        seq![part]
    }
}

/// The leaves of each of `parts` in turn.
pub open spec fn all_leaves(parts: Seq<Part>) -> Seq<Part>
    decreases parts,
{
    if parts.len() == 0 {
        seq![]
    } else {
        all_leaves(parts.drop_last()) + leaves(parts.last())
    }
}

/// Whether a part is for reading, not for saving: no attachment, and without
/// the name of a file.
pub open spec fn is_inline(part: Part) -> bool {
    &&& !part.attachment
    &&& value_of(part.disposition_params, "filename"@) is None
    &&& value_of(part.type_params, "name"@) is None
}

/// Whether a part is text of the media type `kind` that can be shown.
pub open spec fn shows(part: Part, kind: Seq<char>) -> bool {
    is_inline(part) && lowered(part.mimetype) == lowered(kind) && part.text is Some
}

/// The text of the first of `parts` that can be shown as `kind`.
pub open spec fn first_text(parts: Seq<Part>, kind: Seq<char>) -> Option<Seq<char>>
    decreases parts.len(),
{
    if parts.len() == 0 {
        None
    } else if shows(parts[0], kind) {
        parts[0].text
    } else {
        first_text(parts.skip(1), kind)
    }
}

/// The text found so far, or else the first one in `parts`.
pub open spec fn or_first_text(
    found: Option<Seq<char>>,
    parts: Seq<Part>,
    kind: Seq<char>,
) -> Option<Seq<char>> {
    if found is Some {
        found
    } else {
        first_text(parts, kind)
    }
}

/// Looking through two lists is looking through one and then the other.
proof fn lemma_first_text_concat(a: Seq<Part>, b: Seq<Part>, kind: Seq<char>)
    ensures
        first_text(a + b, kind) == or_first_text(first_text(a, kind), b, kind),
    decreases a.len(),
{
    if a.len() == 0 {
        assert(a + b =~= b);
    } else {
        lemma_first_text_concat(a.skip(1), b, kind);
        assert((a + b).skip(1) =~= a.skip(1) + b);
    }
}

/// Whether a part is for reading.
fn part_is_inline(part: &MailPart) -> (r: bool)
    ensures
        r == is_inline(part@),
{
    let has_filename = mime::param(&part.disposition_params, "filename").is_some() || mime::param(
        &part.type_params,
        "name",
    ).is_some();
    !part.attachment && !has_filename
}

/// Finds the first plain text and the first HTML text of a message, each unless
/// one has been found before.
pub fn collect_body_parts(
    part: &MailPart,
    plain: &mut Option<String>,
    html: &mut Option<String>,
)
    ensures
        text_of(*final(plain)) == or_first_text(text_of(*old(plain)), leaves(part@), "text/plain"@),
        text_of(*final(html)) == or_first_text(text_of(*old(html)), leaves(part@), "text/html"@),
    decreases part@,
{
    if text::starts_with(part.mimetype.as_str(), "multipart/") {
        let mut i: usize = 0;
        let ghost subs = part@.subparts;
        proof {
            mime::lemma_part_views(part.subparts@);
        }
        let ghost plain0 = text_of(*plain);
        let ghost html0 = text_of(*html);
        assert(subs.take(0) =~= seq![]);
        while i < part.subparts.len()
            invariant
                i <= part.subparts@.len() == subs.len(),
                subs == part@.subparts,
                forall|k: int| 0 <= k < subs.len() ==> #[trigger] subs[k] == part.subparts@[k]@,
                text_of(*plain) == or_first_text(
                    plain0,
                    all_leaves(subs.take(i as int)),
                    "text/plain"@,
                ),
                text_of(*html) == or_first_text(
                    html0,
                    all_leaves(subs.take(i as int)),
                    "text/html"@,
                ),
            decreases part.subparts@.len() - i,
        {
            let sub = &part.subparts[i];
            assert(sub@ == subs[i as int]);
            assert(decreases_to!(part@ => part@.subparts[i as int]));
            collect_body_parts(sub, plain, html);
            proof {
                let before = subs.take(i as int);
                let after = subs.take(i + 1);
                assert(after.drop_last() =~= before);
                assert(after.last() == sub@);
                lemma_first_text_concat(all_leaves(before), leaves(sub@), "text/plain"@);
                lemma_first_text_concat(all_leaves(before), leaves(sub@), "text/html"@);
            }
            i += 1;
        }
        assert(subs.take(subs.len() as int) =~= subs);
        return ;
    }
    proof {
        assert(leaves(part@) =~= seq![part@]);
        assert(seq![part@].skip(1) =~= seq![]);
        reveal_with_fuel(first_text, 2);
        lemma_kinds_differ();
    }
    if !part_is_inline(part) {
        return ;
    }
    if text::same_ignoring_case(part.mimetype.as_str(), "text/plain") {
        if plain.is_none() {
            *plain = part.text.clone();
        }
    } else if text::same_ignoring_case(part.mimetype.as_str(), "text/html") && html.is_none() {
        *html = part.text.clone();
    }
}

/// Plain text and HTML are different media types.
proof fn lemma_kinds_differ()
    ensures
        lowered("text/plain"@) != lowered("text/html"@),
{
    reveal_strlit("text/plain");
    reveal_strlit("text/html");
    assert(lowered("text/plain"@).len() != lowered("text/html"@).len());
}

/// A header as it is shown.
pub open spec fn header_line(header: (Seq<char>, Seq<char>)) -> Seq<char> {
    header.0 + ": "@ + header.1
}

/// The headers as they are shown, one to a line.
pub open spec fn header_block(headers: Seq<(Seq<char>, Seq<char>)>) -> Seq<char> {
    joined(headers.map_values(|h: (Seq<char>, Seq<char>)| header_line(h)), "\n"@)
}

/// The first `n` characters of `s`, or all of it.
pub open spec fn clipped(s: Seq<char>, n: nat) -> Seq<char> {
    if s.len() <= n {
        s
    } else {
        s.take(n as int)
    }
}

/// The text of a message: its plain text, or else its HTML made readable, or
/// else a note that there is none.
pub open spec fn body_text(part: Part) -> Seq<char> {
    match first_text(leaves(part), "text/plain"@) {
        Some(plain) => plain,
        None => match first_text(leaves(part), "text/html"@) {
            Some(html) => readable(html),
            None => "(binary/non-text body)"@,
        },
    }
}

/// The headers and the start of the body of a message that was parsed, or not.
pub open spec fn shown(message: Result<Part, Seq<char>>) -> (Seq<char>, Seq<char>) {
    match message {
        Ok(part) => (header_block(part.headers), clipped(body_text(part), SNIPPET_CHARS as nat)),
        Err(e) => (seq![], "(parse error: "@ + e + ")"@),
    }
}

/// The headers as they are shown.
fn show_headers(headers: &Vec<(String, String)>) -> (r: String)
    ensures
        r@ == header_block(pair_texts(headers@)),
{
    let ghost all = pair_texts(headers@).map_values(
        |h: (Seq<char>, Seq<char>)| header_line(h),
    );
    let mut lines: Vec<String> = Vec::new();
    let mut i: usize = 0;
    while i < headers.len()
        invariant
            i <= headers@.len(),
            all == pair_texts(headers@).map_values(|h: (Seq<char>, Seq<char>)| header_line(h)),
            views(lines@) =~= all.take(i as int),
        decreases headers@.len() - i,
    {
        let line = headers[i].0.clone().concat(": ").concat(headers[i].1.as_str());
        assert(line@ == all[i as int]);
        let ghost before = views(lines@);
        lines.push(line);
        assert(views(lines@) =~= before.push(line@));
        assert(all.take(i + 1) =~= all.take(i as int).push(all[i as int]));
        i += 1;
    }
    assert(all.take(all.len() as int) =~= all);
    text::join(&lines, "\n")
}

/// The first `n` characters of a text.
fn clip(s: &str, n: usize) -> (r: String)
    ensures
        r@ == clipped(s@, n as nat),
{
    let chars = text::chars_of(s);
    let len: usize = if chars.len() <= n {
        chars.len()
    } else {
        n
    };
    let r = text::string_of(chars.as_slice(), 0, len);
    assert(r@ =~= clipped(s@, n as nat));
    r
}

/// The headers and the start of the body of a message, from the outcome of
/// parsing it.
pub fn show_message(message: Result<MailPart, String>) -> (r: (String, String))
    ensures
        (r.0@, r.1@) == shown(outcome(message)),
{
    match message {
        Ok(part) => {
            let headers = show_headers(&part.headers);
            let mut plain: Option<String> = None;
            let mut html: Option<String> = None;
            collect_body_parts(&part, &mut plain, &mut html);
            let body = match plain {
                Some(text) => text,
                None => match html {
                    Some(source) => html::html_to_text(source.as_str()),
                    None => "(binary/non-text body)".to_string(),
                },
            };
            (headers, clip(body.as_str(), SNIPPET_CHARS))
        },
        Err(e) => {
            let note = "(parse error: ".to_string().concat(e.as_str()).concat(")");
            (String::new(), note)
        },
    }
}

/// The headers and the start of the body of the raw message `raw`.
pub fn extract_body(raw: &[u8]) -> (r: (String, String))
    ensures
        (r.0@, r.1@) == shown(parsed(raw@)),
{
    show_message(mime::parse_message(raw))
}

/// Of a message that can be parsed at most 8000 characters are shown, and they
/// are the start of its text.
pub proof fn law_snippet_is_a_short_prefix(part: Part)
    ensures
        shown(Ok(part)).1.len() <= 8000,
        shown(Ok(part)).1.is_prefix_of(body_text(part)),
{
    let body = body_text(part);
    assert(clipped(body, 8000) =~= body.subrange(0, clipped(body, 8000).len() as int));
}

/// A message that has plain text is shown by it, whatever HTML it also has.
pub proof fn law_plain_text_is_preferred(part: Part)
    requires
        first_text(leaves(part), "text/plain"@) is Some,
    ensures
        body_text(part) == first_text(leaves(part), "text/plain"@)->0,
{
}

/// An attachment, or a part with a file name, never becomes the body.
pub proof fn law_attachments_are_not_shown(parts: Seq<Part>, kind: Seq<char>)
    requires
        forall|i: int| 0 <= i < parts.len() ==> !is_inline(#[trigger] parts[i]),
    ensures
        first_text(parts, kind) is None,
    decreases parts.len(),
{
    if parts.len() > 0 {
        assert(!is_inline(parts[0]));
        assert forall|i: int| 0 <= i < parts.skip(1).len() implies !is_inline(
            #[trigger] parts.skip(1)[i],
        ) by {
            assert(!is_inline(parts[i + 1]));
        }
        law_attachments_are_not_shown(parts.skip(1), kind);
    }
}

/// A message that has only attachments has no text to show.
pub proof fn law_only_attachments_show_no_text(part: Part)
    requires
        forall|i: int| 0 <= i < leaves(part).len() ==> !is_inline(#[trigger] leaves(part)[i]),
    ensures
        body_text(part) == "(binary/non-text body)"@,
{
    law_attachments_are_not_shown(leaves(part), "text/plain"@);
    law_attachments_are_not_shown(leaves(part), "text/html"@);
}

/// What holds other parts is what has a media type that starts with
/// `multipart/`.
pub proof fn law_multipart_goes_by_its_type(part: Part)
    ensures
        is_multipart(part) <==> part.mimetype.len() >= 10 && part.mimetype.take(10)
            == "multipart/"@,
{
    reveal_strlit("multipart/");
    let head = "multipart/"@;
    assert(head.len() == 10);
    if part.mimetype.len() >= 10 {
        assert(part.mimetype.take(10) =~= part.mimetype.subrange(0, 10));
    }
}

/// A part can be shown as text exactly if it is not marked as an attachment, has
/// no file name, neither in its disposition nor in its type, is of the media type
/// in any case, and its body could be decoded as text.
pub proof fn law_what_can_be_shown(part: Part, kind: Seq<char>)
    ensures
        shows(part, kind) <==> {
            &&& !part.attachment
            &&& forall|j: int|
                0 <= j < part.disposition_params.len() ==> (
                #[trigger] part.disposition_params[j]).0 != "filename"@
            &&& forall|j: int|
                0 <= j < part.type_params.len() ==> (#[trigger] part.type_params[j]).0 != "name"@
            &&& lowered(part.mimetype) == lowered(kind)
            &&& part.text is Some
        },
{
    mime::law_value_is_that_of_the_first(part.disposition_params, "filename"@);
    mime::law_value_is_that_of_the_first(part.type_params, "name"@);
}

/// The leaves of two lists of parts are those of one and then those of the other.
proof fn lemma_all_leaves_concat(a: Seq<Part>, b: Seq<Part>)
    ensures
        all_leaves(a + b) == all_leaves(a) + all_leaves(b),
    decreases b.len(),
{
    if b.len() == 0 {
        assert(a + b =~= a);
        assert(all_leaves(a) + all_leaves(b) =~= all_leaves(a));
    } else {
        lemma_all_leaves_concat(a, b.drop_last());
        assert((a + b).drop_last() =~= a + b.drop_last());
        assert((a + b).last() == b.last());
        assert(all_leaves(a + b) =~= all_leaves(a) + all_leaves(b));
    }
}

/// The leaves of one part are those of the list of it alone.
proof fn lemma_all_leaves_one(part: Part)
    ensures
        all_leaves(seq![part]) == leaves(part),
{
    let one = seq![part];
    assert(one.drop_last() =~= seq![]);
    assert(one.last() == part);
    assert(all_leaves(one) == all_leaves(one.drop_last()) + leaves(one.last()));
    assert(all_leaves(one.drop_last()) =~= seq![]);
    assert(seq![] + leaves(part) =~= leaves(part));
}

/// A message inside a multipart as its only part is shown as it is by itself,
/// however often it is wrapped.
pub proof fn law_wrapping_changes_nothing(wrap: Part, inner: Part)
    requires
        is_multipart(wrap),
        wrap.subparts == seq![inner],
    ensures
        body_text(wrap) == body_text(inner),
{
    lemma_all_leaves_one(inner);
}

/// A multipart among the parts of a message is as if the parts that it holds
/// stood in its place: depth plays no part.
pub proof fn law_depth_plays_no_part(whole: Part, a: Seq<Part>, inner: Part, b: Seq<Part>)
    requires
        is_multipart(whole),
        is_multipart(inner),
    ensures
        body_text(Part { subparts: a + seq![inner] + b, ..whole }) == body_text(
            Part { subparts: a + inner.subparts + b, ..whole },
        ),
{
    let deep = Part { subparts: a + seq![inner] + b, ..whole };
    let flat = Part { subparts: a + inner.subparts + b, ..whole };
    lemma_all_leaves_one(inner);
    lemma_all_leaves_concat(a, seq![inner]);
    lemma_all_leaves_concat(a + seq![inner], b);
    lemma_all_leaves_concat(a, inner.subparts);
    lemma_all_leaves_concat(a + inner.subparts, b);
    assert(is_multipart(deep));
    assert(is_multipart(flat));
    assert(leaves(deep) == all_leaves(deep.subparts));
    assert(leaves(flat) == all_leaves(flat.subparts));
    assert(leaves(inner) == all_leaves(inner.subparts));
    assert(leaves(deep) == leaves(flat));
}

/// Whether, at step `k`, a way goes on from a multipart to the part of it that has
/// the number that `path` gives.
pub open spec fn goes_on(path: Seq<int>, way: Seq<Part>, k: int) -> bool {
    &&& is_multipart(way[k])
    &&& 0 <= path[k] < way[k].subparts.len()
    &&& way[k + 1] == way[k].subparts[path[k]]
}

/// Whether `path` leads from a message down to a part that holds no others: it
/// gives, at each multipart on the way, the number of the part to go on with, and
/// `way` are the parts that it goes through.
pub open spec fn leads(message: Part, path: Seq<int>, way: Seq<Part>) -> bool {
    &&& way.len() == path.len() + 1
    &&& way[0] == message
    &&& forall|k: int| 0 <= k < path.len() ==> #[trigger] goes_on(path, way, k)
    &&& !is_multipart(way.last())
}

/// Whether one path comes before another in reading order: where they part, it
/// takes the lower number.
pub open spec fn comes_earlier(a: Seq<int>, b: Seq<int>) -> bool {
    exists|k: int|
        0 <= k < a.len() && k < b.len() && #[trigger] a[k] < b[k] && forall|j: int|
            0 <= j < k ==> #[trigger] a[j] == b[j]
}

/// A path that comes before another differs from it, in the first number or
/// behind it.
proof fn lemma_earlier(a: Seq<int>, b: Seq<int>)
    requires
        comes_earlier(a, b),
    ensures
        a.len() > 0,
        b.len() > 0,
        a[0] <= b[0],
        a[0] == b[0] ==> comes_earlier(a.skip(1), b.skip(1)),
{
    let k = choose|k: int|
        0 <= k < a.len() && k < b.len() && #[trigger] a[k] < b[k] && forall|j: int|
            0 <= j < k ==> #[trigger] a[j] == b[j];
    if k > 0 {
        assert(a[0] == b[0]);
        let c = a.skip(1);
        let d = b.skip(1);
        assert(c[k - 1] < d[k - 1]);
        assert forall|j: int| 0 <= j < k - 1 implies #[trigger] c[j] == d[j] by {
            assert(a[j + 1] == b[j + 1]);
        }
    }
}

/// A path from a part of a multipart is, behind that part's number, one from the
/// multipart.
proof fn lemma_leads_deeper(message: Part, i: int, path: Seq<int>, way: Seq<Part>)
    requires
        is_multipart(message),
        0 <= i < message.subparts.len(),
        leads(message.subparts[i], path, way),
    ensures
        leads(message, seq![i] + path, seq![message] + way),
        (seq![message] + way).last() == way.last(),
{
    let p = seq![i] + path;
    let w = seq![message] + way;
    assert(w.len() == p.len() + 1);
    assert(w[0] == message);
    assert(w.last() == way.last());
    assert forall|k: int| 0 <= k < p.len() implies #[trigger] goes_on(p, w, k) by {
        if k == 0 {
            assert(w[1] == way[0]);
        } else {
            assert(goes_on(path, way, k - 1));
            assert(p[k] == path[k - 1]);
            assert(w[k] == way[k - 1]);
            assert(w[k + 1] == way[k]);
        }
    }
}

/// Where a text is found among the leaves, a path leads to a part that shows one.
proof fn lemma_found_by_a_path(message: Part, kind: Seq<char>) -> (r: (Seq<int>, Seq<Part>))
    requires
        first_text(leaves(message), kind) is Some,
    ensures
        leads(message, r.0, r.1),
        shows(r.1.last(), kind),
    decreases message, message.subparts.len() + 1,
{
    if is_multipart(message) {
        assert(message.subparts.take(message.subparts.len() as int) =~= message.subparts);
        lemma_found_below(message, message.subparts.len() as int, kind)
    } else {
        assert(leaves(message) =~= seq![message]);
        assert(seq![message].skip(1) =~= seq![]);
        reveal_with_fuel(first_text, 2);
        (Seq::<int>::empty(), seq![message])
    }
}

/// Where a text is found below the first `n` parts of a multipart, a path leads to
/// a part that shows one.
proof fn lemma_found_below(message: Part, n: int, kind: Seq<char>) -> (r: (Seq<int>, Seq<Part>))
    requires
        is_multipart(message),
        0 <= n <= message.subparts.len(),
        first_text(all_leaves(message.subparts.take(n)), kind) is Some,
    ensures
        leads(message, r.0, r.1),
        shows(r.1.last(), kind),
    decreases message, n,
{
    let parts = message.subparts.take(n);
    if n == 0 {
        assert(parts =~= seq![]);
        (Seq::<int>::empty(), seq![message])
    } else {
        let sub = message.subparts[n - 1];
        assert(parts.drop_last() =~= message.subparts.take(n - 1));
        assert(parts.last() == sub);
        lemma_first_text_concat(all_leaves(parts.drop_last()), leaves(sub), kind);
        if first_text(all_leaves(parts.drop_last()), kind) is Some {
            lemma_found_below(message, n - 1, kind)
        } else {
            assert(decreases_to!(message => message.subparts[n - 1]));
            let (path, way) = lemma_found_by_a_path(sub, kind);
            lemma_leads_deeper(message, n - 1, path, way);
            (seq![n - 1] + path, seq![message] + way)
        }
    }
}

/// The first text among the leaves is that of the part to which the first path
/// leads.
proof fn lemma_first_path(message: Part, path: Seq<int>, way: Seq<Part>, kind: Seq<char>)
    requires
        leads(message, path, way),
        shows(way.last(), kind),
        forall|other: Seq<int>, along: Seq<Part>| #[trigger]
            leads(message, other, along) && shows(along.last(), kind) ==> other == path
                || comes_earlier(path, other),
    ensures
        first_text(leaves(message), kind) == way.last().text,
    decreases path.len(),
{
    if path.len() == 0 {
        assert(way.last() == message);
        assert(leaves(message) =~= seq![message]);
        assert(seq![message].skip(1) =~= seq![]);
        reveal_with_fuel(first_text, 2);
    } else {
        let i = path[0];
        let subs = message.subparts;
        let sub = subs[i];
        let tail = path.skip(1);
        let rest = way.skip(1);
        assert(goes_on(path, way, 0));
        assert(way[1] == sub);
        assert forall|k: int| 0 <= k < tail.len() implies #[trigger] goes_on(tail, rest, k) by {
            assert(goes_on(path, way, k + 1));
            assert(path[k + 1] == tail[k]);
            assert(rest[k] == way[k + 1]);
            assert(rest[k + 1] == way[k + 2]);
        }
        assert(rest[0] == way[1]);
        assert(rest.last() == way.last());
        assert(leads(sub, tail, rest));
        assert(seq![i] + tail =~= path);
        assert forall|other: Seq<int>, along: Seq<Part>| #[trigger]
            leads(sub, other, along) && shows(along.last(), kind) implies other == tail
            || comes_earlier(tail, other) by {
            lemma_leads_deeper(message, i, other, along);
            let whole = seq![i] + other;
            assert(whole.skip(1) =~= other);
            if whole == path {
                assert(other =~= tail);
            } else {
                lemma_earlier(path, whole);
            }
        }
        lemma_first_path(sub, tail, rest, kind);
        if first_text(all_leaves(subs.take(i)), kind) is Some {
            let before = Part { subparts: subs.take(i), ..message };
            assert(before.subparts.take(i) =~= subs.take(i));
            let (other, along) = lemma_found_below(before, i, kind);
            assert(other.len() > 0);
            let j = other[0];
            let whole_way = along.update(0, message);
            assert(goes_on(other, along, 0));
            assert(subs.take(i)[j] == subs[j]);
            assert forall|k: int| 0 <= k < other.len() implies #[trigger] goes_on(
                other,
                whole_way,
                k,
            ) by {
                assert(goes_on(other, along, k));
                assert(whole_way[k + 1] == along[k + 1]);
            }
            assert(whole_way.last() == along.last());
            assert(leads(message, other, whole_way));
            if comes_earlier(path, other) {
                lemma_earlier(path, other);
            }
        }
        let whole = subs.take(i) + seq![sub] + subs.skip(i + 1);
        assert(whole =~= subs);
        lemma_all_leaves_one(sub);
        lemma_all_leaves_concat(subs.take(i), seq![sub]);
        lemma_all_leaves_concat(subs.take(i) + seq![sub], subs.skip(i + 1));
        lemma_first_text_concat(all_leaves(subs.take(i)), leaves(sub), kind);
        lemma_first_text_concat(
            all_leaves(subs.take(i)) + leaves(sub),
            all_leaves(subs.skip(i + 1)),
            kind,
        );
    }
}

/// Where no path leads to a part that shows a text, none is found.
proof fn lemma_no_path(message: Part, kind: Seq<char>)
    requires
        forall|path: Seq<int>, way: Seq<Part>| #[trigger]
            leads(message, path, way) ==> !shows(way.last(), kind),
    ensures
        first_text(leaves(message), kind) is None,
{
    if first_text(leaves(message), kind) is Some {
        let (path, way) = lemma_found_by_a_path(message, kind);
        assert(!shows(way.last(), kind));
    }
}

/// A message is shown by the first plain text in it, in reading order, however
/// deep in the tree of its parts it stands, and whatever else the message holds.
pub proof fn law_first_plain_text_is_the_body(message: Part, path: Seq<int>, way: Seq<Part>)
    requires
        leads(message, path, way),
        shows(way.last(), "text/plain"@),
        forall|other: Seq<int>, along: Seq<Part>| #[trigger]
            leads(message, other, along) && shows(along.last(), "text/plain"@) ==> other == path
                || comes_earlier(path, other),
    ensures
        Some(body_text(message)) == way.last().text,
{
    lemma_first_path(message, path, way, "text/plain"@);
}

/// A message without plain text anywhere in it is shown by the first HTML in it,
/// in reading order, made readable.
pub proof fn law_first_html_stands_in(message: Part, path: Seq<int>, way: Seq<Part>)
    requires
        forall|other: Seq<int>, along: Seq<Part>| #[trigger]
            leads(message, other, along) ==> !shows(along.last(), "text/plain"@),
        leads(message, path, way),
        shows(way.last(), "text/html"@),
        forall|other: Seq<int>, along: Seq<Part>| #[trigger]
            leads(message, other, along) && shows(along.last(), "text/html"@) ==> other == path
                || comes_earlier(path, other),
    ensures
        body_text(message) == readable(way.last().text->0),
{
    lemma_no_path(message, "text/plain"@);
    lemma_first_path(message, path, way, "text/html"@);
}

/// The note that there is no text is shown where neither plain text nor HTML
/// stands anywhere in the message.
pub proof fn law_note_where_there_is_no_text(message: Part)
    requires
        forall|path: Seq<int>, way: Seq<Part>| #[trigger]
            leads(message, path, way) ==> !shows(way.last(), "text/plain"@) && !shows(
                way.last(),
                "text/html"@,
            ),
    ensures
        body_text(message) == "(binary/non-text body)"@,
{
    lemma_no_path(message, "text/plain"@);
    lemma_no_path(message, "text/html"@);
}

/// The message is shown by the first of its parts that is plain text, where none
/// of them holds others, or else by the first that is HTML, made readable.
pub proof fn law_flat_message_is_its_first_text(message: Part, i: int)
    requires
        is_multipart(message),
        forall|k: int|
            0 <= k < message.subparts.len() ==> !is_multipart(#[trigger] message.subparts[k]),
        0 <= i < message.subparts.len(),
    ensures
        shows(message.subparts[i], "text/plain"@) && (forall|k: int|
            0 <= k < i ==> !shows(#[trigger] message.subparts[k], "text/plain"@)) ==> Some(
            body_text(message),
        ) == message.subparts[i].text,
        shows(message.subparts[i], "text/html"@) && (forall|k: int|
            0 <= k < i ==> !shows(#[trigger] message.subparts[k], "text/html"@)) && (forall|k: int|

            0 <= k < message.subparts.len() ==> !shows(
                #[trigger] message.subparts[k],
                "text/plain"@,
            )) ==> body_text(message) == readable(message.subparts[i].text->0),
{
    let subs = message.subparts;
    lemma_flat_leaves(subs);
    if shows(subs[i], "text/plain"@) && (forall|k: int|
        0 <= k < i ==> !shows(#[trigger] subs[k], "text/plain"@)) {
        lemma_first_text_at(subs, i, "text/plain"@);
    }
    if forall|k: int| 0 <= k < subs.len() ==> !shows(#[trigger] subs[k], "text/plain"@) {
        lemma_no_text_in(subs, "text/plain"@);
        if shows(subs[i], "text/html"@) && (forall|k: int|
            0 <= k < i ==> !shows(#[trigger] subs[k], "text/html"@)) {
            lemma_first_text_at(subs, i, "text/html"@);
        }
    }
}

/// Parts that hold no others are their own leaves.
proof fn lemma_flat_leaves(parts: Seq<Part>)
    requires
        forall|k: int| 0 <= k < parts.len() ==> !is_multipart(#[trigger] parts[k]),
    ensures
        all_leaves(parts) == parts,
    decreases parts.len(),
{
    if parts.len() > 0 {
        let front = parts.drop_last();
        assert forall|k: int| 0 <= k < front.len() implies !is_multipart(#[trigger] front[k]) by {
            assert(front[k] == parts[k]);
        }
        lemma_flat_leaves(front);
        assert(!is_multipart(parts[parts.len() - 1]));
        assert(leaves(parts.last()) =~= seq![parts.last()]);
        assert(all_leaves(parts) == front + seq![parts.last()]);
        assert(front + seq![parts.last()] =~= parts);
    } else {
        assert(all_leaves(parts) =~= seq![]);
        assert(parts =~= seq![]);
    }
}

/// The first text is that of the first part that shows one.
proof fn lemma_first_text_at(parts: Seq<Part>, i: int, kind: Seq<char>)
    requires
        0 <= i < parts.len(),
        shows(parts[i], kind),
        forall|k: int| 0 <= k < i ==> !shows(#[trigger] parts[k], kind),
    ensures
        first_text(parts, kind) == parts[i].text,
    decreases i,
{
    if i > 0 {
        assert(!shows(parts[0], kind));
        let rest = parts.skip(1);
        assert forall|k: int| 0 <= k < i - 1 implies !shows(#[trigger] rest[k], kind) by {
            assert(rest[k] == parts[k + 1]);
        }
        lemma_first_text_at(rest, i - 1, kind);
    }
}

/// Where no part shows a text, there is none.
proof fn lemma_no_text_in(parts: Seq<Part>, kind: Seq<char>)
    requires
        forall|k: int| 0 <= k < parts.len() ==> !shows(#[trigger] parts[k], kind),
    ensures
        first_text(parts, kind) is None,
    decreases parts.len(),
{
    if parts.len() > 0 {
        assert(!shows(parts[0], kind));
        let rest = parts.skip(1);
        assert forall|k: int| 0 <= k < rest.len() implies !shows(#[trigger] rest[k], kind) by {
            assert(rest[k] == parts[k + 1]);
        }
        lemma_no_text_in(rest, kind);
    }
}

/// What is shown of a message is all of its text, or its first 8000 characters
/// where it is longer, and of one that cannot be parsed the reason.
pub proof fn law_text_is_shown_as_it_is(part: Part, e: Seq<char>)
    ensures
        body_text(part).len() <= 8000 ==> shown(Ok(part)).1 == body_text(part),
        body_text(part).len() > 8000 ==> shown(Ok(part)).1.len() == 8000,
        forall|k: int|
            0 <= k < shown(Ok(part)).1.len() ==> #[trigger] shown(Ok(part)).1[k] == body_text(
                part,
            )[k],
        shown(Err(e)) == (Seq::<char>::empty(), "(parse error: "@ + e + ")"@),
{
}

/// Every header of a message is shown, in order, as its name, a colon, a space and
/// its value, one to a line.
pub proof fn law_every_header_is_shown(part: Part, n: int)
    requires
        0 < n < part.headers.len(),
    ensures
        shown(Ok(part)).0 == shown(Ok(Part { headers: part.headers.take(n), ..part })).0 + "\n"@
            + shown(Ok(Part { headers: part.headers.skip(n), ..part })).0,
{
    let f = |h: (Seq<char>, Seq<char>)| header_line(h);
    let a = part.headers.take(n);
    let b = part.headers.skip(n);
    assert(a.map_values(f) + b.map_values(f) =~= part.headers.map_values(f));
    text::law_joining_puts_separators_between(a.map_values(f), b.map_values(f), seq![], "\n"@);
}

/// A message with one header shows it as its name, a colon, a space and its value,
/// and one without headers shows none.
pub proof fn law_one_header_is_shown(part: Part)
    ensures
        part.headers.len() == 1 ==> shown(Ok(part)).0 == part.headers[0].0 + ": "@
            + part.headers[0].1,
        part.headers.len() == 0 ==> shown(Ok(part)).0.len() == 0,
{
    let f = |h: (Seq<char>, Seq<char>)| header_line(h);
    if part.headers.len() == 1 {
        assert(part.headers.map_values(f) =~= seq![header_line(part.headers[0])]);
    }
}

/// A listing shows of a message the value of the first `From`, `Subject` and
/// `Date` header that it has, and nothing where it has none.
pub proof fn law_summary_shows_the_headers(uid: u32, part: Part, key: Seq<char>)
    ensures
        summary(uid, Ok(part)).uid == uid,
        header_or_empty(part.headers, "From"@) == summary(uid, Ok(part)).from,
        header_or_empty(part.headers, "Subject"@) == summary(uid, Ok(part)).subject,
        header_or_empty(part.headers, "Date"@) == summary(uid, Ok(part)).date,
        (exists|i: int|
            0 <= i < part.headers.len() && lowered((#[trigger] part.headers[i]).0) == lowered(key)
                && header_or_empty(part.headers, key) == part.headers[i].1 && forall|j: int|
                0 <= j < i ==> lowered((#[trigger] part.headers[j]).0) != lowered(key)) || (
        header_or_empty(part.headers, key).len() == 0 && forall|i: int|
            0 <= i < part.headers.len() ==> lowered((#[trigger] part.headers[i]).0) != lowered(
                key,
            )),
{
    mime::law_header_is_the_first(part.headers, key);
}

/// A message that cannot be parsed is listed all the same, under its number, as
/// unparseable.
pub proof fn law_unparseable_is_listed(uid: u32, e: Seq<char>)
    ensures
        summary(uid, Err(e)).uid == uid,
        summary(uid, Err(e)).subject == "(unparseable)"@,
        summary(uid, Err(e)).from.len() == 0,
        summary(uid, Err(e)).date.len() == 0,
{
}

/// Collecting keeps a text that was found before, and else finds the first one of
/// its kind, in reading order, however deep it stands.
pub proof fn law_collecting_finds_the_first(
    message: Part,
    path: Seq<int>,
    way: Seq<Part>,
    kind: Seq<char>,
    found: Seq<char>,
)
    ensures
        or_first_text(Some(found), leaves(message), kind) == Some(found),
        leads(message, path, way) && shows(way.last(), kind) && (forall|
            other: Seq<int>,
            along: Seq<Part>,
        | #[trigger]
            leads(message, other, along) && shows(along.last(), kind) ==> other == path
                || comes_earlier(path, other)) ==> or_first_text(None, leaves(message), kind)
            == way.last().text,
        (forall|other: Seq<int>, along: Seq<Part>| #[trigger]
            leads(message, other, along) ==> !shows(along.last(), kind)) ==> or_first_text(
            None,
            leaves(message),
            kind,
        ) is None,
{
    if leads(message, path, way) && shows(way.last(), kind) && (forall|
        other: Seq<int>,
        along: Seq<Part>,
    | #[trigger]
        leads(message, other, along) && shows(along.last(), kind) ==> other == path
            || comes_earlier(path, other)) {
        lemma_first_path(message, path, way, kind);
    }
    if forall|other: Seq<int>, along: Seq<Part>| #[trigger]
        leads(message, other, along) ==> !shows(along.last(), kind) {
        lemma_no_path(message, kind);
    }
}

/// A path goes down the tree one part at a time, from multipart to part, and ends
/// at one that holds no others; of two paths the one that takes the lower number
/// where they part comes first.
pub proof fn law_paths_go_down_the_tree(
    message: Part,
    i: int,
    path: Seq<int>,
    way: Seq<Part>,
    j: int,
    other: Seq<int>,
)
    ensures
        !is_multipart(message) ==> leads(message, seq![], seq![message]),
        is_multipart(message) && 0 <= i < message.subparts.len() && leads(
            message.subparts[i],
            path,
            way,
        ) ==> leads(message, seq![i] + path, seq![message] + way) && (seq![message] + way).last()
            == way.last(),
        i < j ==> comes_earlier(seq![i] + path, seq![j] + other),
        comes_earlier(path, other) ==> comes_earlier(seq![i] + path, seq![i] + other),
        !comes_earlier(path, path),
{
    if is_multipart(message) && 0 <= i < message.subparts.len() && leads(
        message.subparts[i],
        path,
        way,
    ) {
        lemma_leads_deeper(message, i, path, way);
    }
    let a = seq![i] + path;
    let b = seq![j] + other;
    if i < j {
        assert(a[0] < b[0]);
    }
    if comes_earlier(path, other) {
        let k = choose|k: int|
            0 <= k < path.len() && k < other.len() && #[trigger] path[k] < other[k] && forall|m: int|
                0 <= m < k ==> #[trigger] path[m] == other[m];
        let c = seq![i] + other;
        assert(a[k + 1] < c[k + 1]);
        assert forall|m: int| 0 <= m < k + 1 implies #[trigger] a[m] == c[m] by {
            if m > 0 {
                assert(path[m - 1] == other[m - 1]);
            }
        }
    }
}

}
