//! Attachments: which parts of a message are attachments, how they are listed,
//! and what is saved when one is downloaded.
use vstd::prelude::*;

use crate::email::{is_inline, is_multipart};
use crate::mime;
use crate::mime::{outcome, parsed, value_of, MailPart, Part};
use crate::path;
use crate::path::{below, sanitized};
use crate::text;
use crate::text::decimal;

verus! {

/// An attachment as a listing shows it.
#[derive(Debug)]
pub struct AttachmentInfo {
    pub index: u32,
    pub filename: String,
    pub mime: String,
    pub size: usize,
}

/// An `AttachmentInfo` as texts.
#[verifier::ext_equal]
pub struct Attached {
    pub index: u32,
    pub filename: Seq<char>,
    pub mime: Seq<char>,
    pub size: nat,
}

impl View for AttachmentInfo {
    type V = Attached;

    open spec fn view(&self) -> Attached {
        Attached {
            index: self.index,
            filename: self.filename@,
            mime: self.mime@,
            size: self.size as nat,
        }
    }
}

/// What several attachments show.
pub open spec fn info_views(infos: Seq<AttachmentInfo>) -> Seq<Attached> {
    infos.map_values(|a: AttachmentInfo| a@)
}

/// The file name that a part gives itself: that of its disposition, or else
/// that of its content type, or else none.
pub open spec fn filename_of(part: Part) -> Seq<char> {
    match value_of(part.disposition_params, "filename"@) {
        Some(name) => name,
        None => match value_of(part.type_params, "name"@) {
            Some(name) => name,
            None => seq![],
        },
    }
}

/// Whether a part is an attachment: marked as one, or with a file name.
pub open spec fn is_attachment(part: Part) -> bool {
    part.attachment || filename_of(part).len() > 0
}

/// The attachments of a message, in reading order. A part that holds others is
/// none itself.
pub open spec fn attachments(part: Part) -> Seq<Part>
    decreases part,
{
    if !is_multipart(part) && is_attachment(part) {
        seq![part] + all_attachments(part.subparts)
    } else {
        all_attachments(part.subparts)
    }
}

/// The attachments of each of `parts` in turn.
pub open spec fn all_attachments(parts: Seq<Part>) -> Seq<Part>
    decreases parts,
{
    if parts.len() == 0 {
        seq![]
    } else {
        all_attachments(parts.drop_last()) + attachments(parts.last())
    }
}

/// The name under which the attachment number `n` is listed.
pub open spec fn listed_name(part: Part, n: nat) -> Seq<char> {
    if filename_of(part).len() == 0 {
        "attachment-"@ + decimal(n) + ".bin"@
    } else {
        filename_of(part)
    }
}

/// How the attachment number `n` is listed. One that cannot be decoded counts
/// as empty.
pub open spec fn listed(part: Part, n: nat) -> Attached {
    Attached {
        index: n as u32,
        filename: listed_name(part, n),
        mime: part.mimetype,
        size: match part.content {
            Ok(bytes) => bytes.len(),
            Err(_) => 0,
        },
    }
}

/// How attachments are listed that are numbered from `start` on.
pub open spec fn listing(parts: Seq<Part>, start: nat) -> Seq<Attached> {
    Seq::new(parts.len(), |i: int| listed(parts[i], (start + i) as nat))
}

/// The file name that a part gives itself.
fn part_filename(part: &MailPart) -> (r: String)
    ensures
        r@ == filename_of(part@),
{
    match mime::param(&part.disposition_params, "filename") {
        Some(name) => name,
        None => match mime::param(&part.type_params, "name") {
            Some(name) => name,
            None => String::new(),
        },
    }
}

/// The name under which the attachment number `n` is listed, given the name
/// that it gives itself.
fn name_or_number(filename: String, n: usize) -> (r: String)
    ensures
        r@ == if filename@.len() == 0 {
            "attachment-"@ + decimal(n as nat) + ".bin"@
        } else {
            filename@
        },
{
    if filename.as_str().is_empty() {
        "attachment-".to_string().concat(text::show(n as u64).as_str()).concat(".bin")
    } else {
        filename
    }
}

/// Adds to `out` the attachments of a message part.
pub fn walk_attachments(part: &MailPart, out: &mut Vec<AttachmentInfo>)
    ensures
        info_views(final(out)@) == info_views(old(out)@) + listing(
            attachments(part@),
            old(out)@.len(),
        ),
    decreases part@,
{
    let ghost start = out@.len();
    let ghost before = info_views(out@);
    let ghost mut own: Seq<Part> = seq![];
    if !text::starts_with(part.mimetype.as_str(), "multipart/") {
        let filename = part_filename(part);
        if part.attachment || !filename.as_str().is_empty() {
            let n: usize = out.len();
            let size: usize = match &part.content {
                Ok(bytes) => bytes.len(),
                Err(_) => 0,
            };
            let info = AttachmentInfo {
                index: n as u32,
                filename: name_or_number(filename, n),
                mime: part.mimetype.clone(),
                size,
            };
            assert(info@ =~= listed(part@, n as nat));
            out.push(info);
            proof {
                own = seq![part@];
            }
            assert(info_views(out@) =~= before.push(info@));
        }
    }
    assert(info_views(out@) =~= before + listing(own, start));
    let ghost subs = part@.subparts;
    proof {
        mime::lemma_part_views(part.subparts@);
        assert(subs.take(0) =~= seq![]);
        assert(own + all_attachments(subs.take(0)) =~= own);
    }
    let mut i: usize = 0;
    while i < part.subparts.len()
        invariant
            i <= part.subparts@.len() == subs.len(),
            subs == part@.subparts,
            forall|k: int| 0 <= k < subs.len() ==> #[trigger] subs[k] == part.subparts@[k]@,
            out@.len() == start + own.len() + all_attachments(subs.take(i as int)).len(),
            info_views(out@) == before + listing(
                own + all_attachments(subs.take(i as int)),
                start,
            ),
        decreases part.subparts@.len() - i,
    {
        let sub = &part.subparts[i];
        assert(decreases_to!(part@ => part@.subparts[i as int]));
        let ghost before_sub = info_views(out@);
        walk_attachments(sub, out);
        proof {
            let done = subs.take(i as int);
            let next = subs.take(i + 1);
            assert(next.drop_last() =~= done);
            assert(next.last() == sub@);
            assert(info_views(out@).len() == out@.len());
            assert(own + all_attachments(next) =~= own + all_attachments(done) + attachments(sub@));
            assert(info_views(out@) =~= before + listing(own + all_attachments(next), start));
        }
        i += 1;
    }
    assert(subs.take(subs.len() as int) =~= subs);
    assert(attachments(part@) =~= own + all_attachments(subs));
}

/// The attachments of a message, from the outcome of parsing it.
pub fn list_parsed(message: Result<MailPart, String>) -> (r: Result<Vec<AttachmentInfo>, String>)
    ensures
        match (outcome(message), r) {
            (Ok(part), Ok(infos)) => info_views(infos@) == listing(attachments(part), 0),
            (Err(e), Err(f)) => e == f@,
            _ => false,
        },
{
    match message {
        Ok(part) => {
            let mut out: Vec<AttachmentInfo> = Vec::new();
            walk_attachments(&part, &mut out);
            assert(info_views(out@) =~= listing(attachments(part@), 0));
            Ok(out)
        },
        Err(e) => Err(e),
    }
}

/// The attachments of the raw message `raw`.
pub fn collect_attachments(raw: &[u8]) -> (r: Result<Vec<AttachmentInfo>, String>)
    ensures
        match (parsed(raw@), r) {
            (Ok(part), Ok(infos)) => info_views(infos@) == listing(attachments(part), 0),
            (Err(e), Err(f)) => e == f@,
            _ => false,
        },
{
    list_parsed(mime::parse_message(raw))
}

/// Whether an attachment can be saved: it can be decoded and is not larger than
/// `limit` bytes.
pub open spec fn savable(part: Part, limit: nat) -> bool {
    part.content matches Ok(bytes) && bytes.len() <= limit
}

/// How many of `parts` can be saved before one that cannot.
pub open spec fn savable_count(parts: Seq<Part>, limit: nat) -> nat
    decreases parts.len(),
{
    if parts.len() > 0 && savable(parts[0], limit) {
        1 + savable_count(parts.skip(1), limit)
    } else {
        0
    }
}

/// Why the attachment number `n` cannot be saved.
pub open spec fn refusal(part: Part, n: nat, limit: nat) -> Seq<char> {
    match part.content {
        Err(e) => e,
        Ok(bytes) => "attachment index "@ + decimal(n) + " is "@ + decimal(bytes.len())
            + " bytes, exceeding the "@ + decimal(limit) + " byte limit"@,
    }
}

/// Attachments with their content, numbered from `start` on.
pub open spec fn contents(parts: Seq<Part>, start: nat) -> Seq<(Attached, Seq<u8>)> {
    Seq::new(
        parts.len(),
        |i: int| (listed(parts[i], (start + i) as nat), parts[i].content->Ok_0),
    )
}

/// Attachments with their content, as texts and bytes.
pub open spec fn content_views(found: Seq<(AttachmentInfo, Vec<u8>)>) -> Seq<
    (Attached, Seq<u8>),
> {
    found.map_values(|f: (AttachmentInfo, Vec<u8>)| (f.0@, f.1@))
}

/// Counting goes through two lists one after the other.
proof fn lemma_savable_concat(a: Seq<Part>, b: Seq<Part>, limit: nat)
    ensures
        savable_count(a, limit) <= a.len(),
        savable_count(a, limit) < a.len() ==> savable_count(a + b, limit) == savable_count(a, limit),
        savable_count(a, limit) == a.len() ==> savable_count(a + b, limit) == a.len()
            + savable_count(b, limit),
    decreases a.len(),
{
    if a.len() == 0 {
        assert(a + b =~= b);
    } else {
        lemma_savable_concat(a.skip(1), b, limit);
        assert((a + b).skip(1) =~= a.skip(1) + b);
    }
}

/// Where a count stops short of the end, the next part cannot be saved.
proof fn lemma_savable_count(parts: Seq<Part>, limit: nat)
    ensures
        savable_count(parts, limit) <= parts.len(),
        savable_count(parts, limit) < parts.len() ==> !savable(
            parts[savable_count(parts, limit) as int],
            limit,
        ),
        forall|i: int| 0 <= i < savable_count(parts, limit) ==> savable(#[trigger] parts[i], limit),
    decreases parts.len(),
{
    if parts.len() > 0 && savable(parts[0], limit) {
        let rest = parts.skip(1);
        lemma_savable_count(rest, limit);
        assert forall|i: int| 0 <= i < savable_count(parts, limit) implies savable(
            #[trigger] parts[i],
            limit,
        ) by {
            if i > 0 {
                assert(parts[i] == rest[i - 1]);
            }
        }
    }
}

/// The error for an attachment that is too large.
fn too_large(n: usize, len: usize, limit: usize) -> (r: String)
    ensures
        r@ == "attachment index "@ + decimal(n as nat) + " is "@ + decimal(len as nat)
            + " bytes, exceeding the "@ + decimal(limit as nat) + " byte limit"@,
{
    "attachment index ".to_string().concat(text::show(n as u64).as_str()).concat(" is ").concat(
        text::show(len as u64).as_str(),
    ).concat(" bytes, exceeding the ").concat(text::show(limit as u64).as_str()).concat(
        " byte limit",
    )
}

/// Adds to `found` the attachments of a message part with their content, up to
/// the first that cannot be saved.
pub fn walk_contents(
    part: &MailPart,
    found: &mut Vec<(AttachmentInfo, Vec<u8>)>,
    limit: usize,
) -> (r: Result<(), String>)
    ensures
        ({
            let parts = attachments(part@);
            let n = savable_count(parts, limit as nat);
            let start = old(found)@.len();
            &&& content_views(final(found)@) == content_views(old(found)@) + contents(
                parts.take(n as int),
                start,
            )
            &&& match r {
                Ok(_) => n == parts.len(),
                Err(e) => n < parts.len() && e@ == refusal(parts[n as int], start + n, limit as nat),
            }
        }),
    decreases part@,
{
    let ghost start = found@.len();
    let ghost before = content_views(found@);
    let ghost mut own: Seq<Part> = seq![];
    let ghost subs = part@.subparts;
    if !text::starts_with(part.mimetype.as_str(), "multipart/") {
        let filename = part_filename(part);
        if part.attachment || !filename.as_str().is_empty() {
            let n: usize = found.len();
            proof {
                own = seq![part@];
                lemma_savable_concat(own, all_attachments(subs), limit as nat);
                assert(attachments(part@) =~= own + all_attachments(subs));
                assert(own.skip(1) =~= seq![]);
                assert(savable_count(own.skip(1), limit as nat) == 0);
            }
            match &part.content {
                Err(e) => {
                    assert(contents(attachments(part@).take(0), start) =~= seq![]);
                    return Err(e.clone());
                },
                Ok(body) => {
                    if body.len() > limit {
                        assert(contents(attachments(part@).take(0), start) =~= seq![]);
                        return Err(too_large(n, body.len(), limit));
                    }
                    let bytes = body.clone();
                    let info = AttachmentInfo {
                        index: n as u32,
                        filename: name_or_number(filename, n),
                        mime: part.mimetype.clone(),
                        size: bytes.len(),
                    };
                    assert(bytes@ =~= body@);
                    assert(info@ =~= listed(part@, n as nat));
                    found.push((info, bytes));
                    assert(content_views(found@) =~= before.push((info@, bytes@)));
                },
            }
        }
    }
    assert(content_views(found@) =~= before + contents(own, start));
    assert(savable_count(own, limit as nat) == own.len());
    assert(attachments(part@) =~= own + all_attachments(subs));
    proof {
        mime::lemma_part_views(part.subparts@);
        assert(subs.take(0) =~= seq![]);
        assert(own + all_attachments(subs.take(0)) =~= own);
    }
    let mut i: usize = 0;
    while i < part.subparts.len()
        invariant
            i <= part.subparts@.len() == subs.len(),
            subs == part@.subparts,
            attachments(part@) == own + all_attachments(subs),
            forall|k: int| 0 <= k < subs.len() ==> #[trigger] subs[k] == part.subparts@[k]@,
            found@.len() == start + own.len() + all_attachments(subs.take(i as int)).len(),
            savable_count(own + all_attachments(subs.take(i as int)), limit as nat) == own.len()
                + all_attachments(subs.take(i as int)).len(),
            before == content_views(old(found)@),
            start == old(found)@.len(),
            content_views(found@) == before + contents(
                own + all_attachments(subs.take(i as int)),
                start,
            ),
        decreases part.subparts@.len() - i,
    {
        let sub = &part.subparts[i];
        assert(decreases_to!(part@ => part@.subparts[i as int]));
        let ghost done = subs.take(i as int);
        let ghost next = subs.take(i + 1);
        let ghost old_parts = own + all_attachments(done);
        let ghost new_parts = attachments(sub@);
        proof {
            assert(next.drop_last() =~= done);
            assert(next.last() == sub@);
            assert(own + all_attachments(next) =~= old_parts + new_parts);
            lemma_savable_concat(old_parts, new_parts, limit as nat);
            lemma_savable_count(new_parts, limit as nat);
            lemma_later_attachments(subs, i as int);
        }
        let result = walk_contents(sub, found, limit);
        proof {
            assert(content_views(found@).len() == found@.len());
        }
        if let Err(e) = result {
            proof {
                let rest = all_attachments(subs.skip(i + 1));
                let n = savable_count(new_parts, limit as nat);
                let parts = attachments(part@);
                assert(parts =~= (old_parts + new_parts) + rest);
                lemma_savable_concat(old_parts + new_parts, rest, limit as nat);
                let m = savable_count(parts, limit as nat);
                assert(m == old_parts.len() + n);
                assert(parts[m as int] == new_parts[n as int]);
                assert(content_views(found@) =~= before + contents(parts.take(m as int), start));
            }
            return Err(e);
        }
        assert(new_parts.take(new_parts.len() as int) =~= new_parts);
        assert(content_views(found@) =~= before + contents(own + all_attachments(next), start));
        i += 1;
    }
    assert(subs.take(subs.len() as int) =~= subs);
    assert(attachments(part@).take(attachments(part@).len() as int) =~= attachments(part@));
    Ok(())
}

/// The attachments of all parts are those up to some part, and then the rest.
proof fn lemma_later_attachments(subs: Seq<Part>, i: int)
    requires
        0 <= i < subs.len(),
    ensures
        all_attachments(subs) == all_attachments(subs.take(i)) + attachments(subs[i])
            + all_attachments(subs.skip(i + 1)),
    decreases subs.len(),
{
    if i == subs.len() - 1 {
        assert(subs.take(i) =~= subs.drop_last());
        assert(subs.skip(i + 1) =~= seq![]);
        assert(all_attachments(subs.skip(i + 1)) =~= seq![]);
    } else {
        lemma_later_attachments(subs.drop_last(), i);
        assert(subs.drop_last().take(i) =~= subs.take(i));
        assert(subs.skip(i + 1).drop_last() =~= subs.drop_last().skip(i + 1));
        assert(subs.skip(i + 1).last() == subs.last());
        assert(all_attachments(subs) =~= all_attachments(subs.take(i)) + attachments(subs[i])
            + all_attachments(subs.skip(i + 1)));
    }
}

/// What downloading the attachment `index` of a message gives: how it is listed
/// and its content. Nothing can be downloaded from a message of which some
/// attachment cannot be saved.
pub open spec fn downloaded(
    message: Result<Part, Seq<char>>,
    index: u32,
    limit: nat,
) -> Result<(Attached, Seq<u8>), Seq<char>> {
    match message {
        Err(e) => Err(e),
        Ok(part) => {
            let parts = attachments(part);
            let n = savable_count(parts, limit);
            if n < parts.len() {
                Err(refusal(parts[n as int], n, limit))
            } else if index < parts.len() {
                Ok((listed(parts[index as int], index as nat), parts[index as int].content->Ok_0))
            } else {
                Err("attachment index "@ + decimal(index as nat) + " not found"@)
            }
        },
    }
}

/// An attachment and its content, or the text of the error.
pub open spec fn download_view(r: Result<(AttachmentInfo, Vec<u8>), String>) -> Result<
    (Attached, Seq<u8>),
    Seq<char>,
> {
    match r {
        Ok(found) => Ok((found.0@, found.1@)),
        Err(e) => Err(e@),
    }
}

/// Picks the attachment `index` of a message, from the outcome of parsing it.
pub fn download_parsed(message: Result<MailPart, String>, index: u32, limit: usize) -> (r: Result<
    (AttachmentInfo, Vec<u8>),
    String,
>)
    ensures
        download_view(r) == downloaded(outcome(message), index, limit as nat),
{
    let part = match message {
        Ok(part) => part,
        Err(e) => return Err(e),
    };
    let mut found: Vec<(AttachmentInfo, Vec<u8>)> = Vec::new();
    let ghost parts = attachments(part@);
    let result = walk_contents(&part, &mut found, limit);
    proof {
        lemma_savable_count(parts, limit as nat);
    }
    if let Err(e) = result {
        return Err(e);
    }
    assert(content_views(found@) =~= contents(parts, 0)) by {
        assert(parts.take(parts.len() as int) =~= parts);
    }
    assert(found@.len() == content_views(found@).len());
    let at: u64 = index as u64;
    if at < found.len() as u64 {
        assert(content_views(found@)[index as int] == contents(parts, 0)[index as int]);
        let (info, bytes) = found.swap_remove(at as usize);
        return Ok((info, bytes));
    }
    Err(
        "attachment index ".to_string().concat(text::show(at).as_str()).concat(" not found"),
    )
}

/// Picks the attachment `index` of the raw message `raw`.
pub fn download(raw: &[u8], index: u32, limit: usize) -> (r: Result<
    (AttachmentInfo, Vec<u8>),
    String,
>)
    ensures
        download_view(r) == downloaded(parsed(raw@), index, limit as nat),
{
    download_parsed(mime::parse_message(raw), index, limit)
}

/// The name of the file that an attachment is saved to.
pub open spec fn saved_name(uid: u32, index: u32, filename: Seq<char>) -> Seq<char> {
    "uid"@ + decimal(uid as nat) + "-"@ + decimal(index as nat) + "-"@ + sanitized(filename)
}

/// The path that an attachment is saved to.
pub open spec fn saved_path(
    out_dir: Seq<char>,
    uid: u32,
    index: u32,
    filename: Seq<char>,
) -> Seq<char> {
    below(out_dir, saved_name(uid, index, filename))
}

/// The path that an attachment is saved to.
pub fn save_path(out_dir: &str, uid: u32, index: u32, filename: &str) -> (r: String)
    ensures
        r@ == saved_path(out_dir@, uid, index, filename@),
{
    let safe = path::sanitize_filename(filename);
    let name = "uid".to_string().concat(text::show(uid as u64).as_str()).concat("-").concat(
        text::show(index as u64).as_str(),
    ).concat("-").concat(safe.as_str());
    path::join(out_dir, name.as_str())
}

/// Attachments are numbered from zero in reading order, and each is listed
/// under a name.
pub proof fn law_attachments_are_numbered(part: Part, i: int)
    requires
        0 <= i < attachments(part).len(),
        i <= u32::MAX,
    ensures
        listing(attachments(part), 0)[i].index == i,
        listing(attachments(part), 0)[i].filename.len() > 0,
{
    reveal_strlit("attachment-");
}

/// What can be downloaded is within the limit and is what the listing shows
/// under that number: same name, same type, and as many bytes.
pub proof fn law_download_matches_listing(part: Part, index: u32, limit: nat)
    requires
        downloaded(Ok(part), index, limit) is Ok,
    ensures
        ({
            let (info, bytes) = downloaded(Ok(part), index, limit)->Ok_0;
            &&& index < listing(attachments(part), 0).len()
            &&& info == listing(attachments(part), 0)[index as int]
            &&& info.size == bytes.len()
            &&& bytes.len() <= limit
        }),
{
    let parts = attachments(part);
    lemma_savable_count(parts, limit);
    assert(savable(parts[index as int], limit));
}

/// Where every attachment can be saved, each that is listed can be downloaded.
pub proof fn law_listed_can_be_downloaded(part: Part, index: u32, limit: nat)
    requires
        forall|i: int|
            0 <= i < attachments(part).len() ==> savable(#[trigger] attachments(part)[i], limit),
        index < attachments(part).len(),
    ensures
        downloaded(Ok(part), index, limit) is Ok,
{
    lemma_savable_count(attachments(part), limit);
}

/// An attachment is saved directly in the directory that was asked for,
/// whatever name the message gives it: the path is the directory, a slash if
/// it needs one, and a file name without any.
pub proof fn law_saved_file_stays_in_directory(
    out_dir: Seq<char>,
    uid: u32,
    index: u32,
    filename: Seq<char>,
)
    ensures
        ({
            let name = saved_name(uid, index, filename);
            let path = saved_path(out_dir, uid, index, filename);
            &&& !name.contains('/')
            &&& path == out_dir + name || path == out_dir.push('/') + name
            &&& path::name_of(path) == Some(name)
        }),
{
    let name = saved_name(uid, index, filename);
    let path = saved_path(out_dir, uid, index, filename);
    let u = decimal(uid as nat);
    let n = decimal(index as nat);
    let s = sanitized(filename);
    reveal_strlit("uid");
    reveal_strlit("-");
    reveal_strlit(".");
    reveal_strlit("..");
    text::law_numbers_round_trip(uid as nat, u32::MAX as nat);
    text::law_numbers_round_trip(index as nat, u32::MAX as nat);
    path::law_sanitized_names_are_safe(filename);
    assert(!name.contains('/')) by {
        if name.contains('/') {
            let i = choose|i: int| 0 <= i < name.len() && name[i] == '/';
            let k = i - 3 - u.len() - 1;
            let j = k - n.len() - 1;
            if i < 3 {
                assert(name[i] == "uid"@[i]);
            } else if i < 3 + u.len() {
                assert(name[i] == u[i - 3]);
            } else if k < 0 {
                assert(name[i] == "-"@[0]);
            } else if k < n.len() {
                assert(name[i] == n[k]);
            } else if j < 0 {
                assert(name[i] == "-"@[0]);
            } else {
                assert(name[i] == s[j]);
                assert(s.contains('/'));
            }
        }
    }
    assert(name[0] == 'u');
    assert(name.len() > 2);
    if out_dir.len() == 0 {
        assert(path =~= out_dir + name);
        text::lemma_last_piece(out_dir, name, '/');
        assert(seq![] + name =~= name);
    } else {
        let base = if out_dir.last() == '/' {
            out_dir
        } else {
            out_dir.push('/')
        };
        assert(path == base + name);
        text::lemma_last_piece(base, name, '/');
        assert(base.last() == '/');
        assert(text::pieces(base, '/').last() =~= seq![]);
        assert(seq![] + name =~= name);
    }
    text::lemma_pieces(path, '/');
    assert(text::pieces(path, '/').last() == name);
}

/// Of two texts that start with digits and go on with a dash, the digits are the
/// same if the texts are, and so is the rest.
proof fn lemma_split_at_dash(a: Seq<char>, x: Seq<char>, b: Seq<char>, y: Seq<char>)
    requires
        forall|i: int| 0 <= i < a.len() ==> text::is_digit(#[trigger] a[i]),
        forall|i: int| 0 <= i < b.len() ==> text::is_digit(#[trigger] b[i]),
        a + "-"@ + x == b + "-"@ + y,
    ensures
        a == b,
        x == y,
{
    reveal_strlit("-");
    let s = a + "-"@ + x;
    let t = b + "-"@ + y;
    assert(s[a.len() as int] == '-');
    assert(t[b.len() as int] == '-');
    if a.len() < b.len() {
        assert(t[a.len() as int] == b[a.len() as int]);
    }
    if b.len() < a.len() {
        assert(s[b.len() as int] == a[b.len() as int]);
    }
    assert(a =~= s.take(a.len() as int));
    assert(b =~= t.take(b.len() as int));
    assert(x =~= s.skip((a.len() + 1) as int));
    assert(y =~= t.skip((b.len() + 1) as int));
}

/// Of two texts that start with `uid` and twice digits before a dash, the digits
/// are the same if the texts are.
proof fn lemma_split_twice(
    u: Seq<char>,
    i: Seq<char>,
    rest: Seq<char>,
    v: Seq<char>,
    j: Seq<char>,
    other: Seq<char>,
)
    requires
        forall|k: int| 0 <= k < u.len() ==> text::is_digit(#[trigger] u[k]),
        forall|k: int| 0 <= k < i.len() ==> text::is_digit(#[trigger] i[k]),
        forall|k: int| 0 <= k < v.len() ==> text::is_digit(#[trigger] v[k]),
        forall|k: int| 0 <= k < j.len() ==> text::is_digit(#[trigger] j[k]),
        "uid"@ + u + "-"@ + i + "-"@ + rest == "uid"@ + v + "-"@ + j + "-"@ + other,
    ensures
        u == v,
        i == j,
{
    let x = i + "-"@ + rest;
    let y = j + "-"@ + other;
    let s = "uid"@ + u + "-"@ + i + "-"@ + rest;
    let t = "uid"@ + v + "-"@ + j + "-"@ + other;
    let head = "uid"@.len() as int;
    assert(s.skip(head) =~= u + "-"@ + x);
    assert(t.skip(head) =~= v + "-"@ + y);
    lemma_split_at_dash(u, x, v, y);
    lemma_split_at_dash(i, rest, j, other);
}

/// A number is written in digits, and numbers that are written alike are the same.
proof fn lemma_decimal_digits(n: u32, other: u32)
    ensures
        forall|k: int|
            0 <= k < decimal(n as nat).len() ==> text::is_digit(#[trigger] decimal(n as nat)[k]),
        decimal(n as nat) == decimal(other as nat) ==> n == other,
{
    text::law_numbers_round_trip(n as nat, u32::MAX as nat);
    text::law_numbers_round_trip(other as nat, u32::MAX as nat);
}

/// Attachments of different messages, or with different numbers, are saved under
/// different names, whatever they are called: none takes the place of another.
pub proof fn law_saved_names_differ(
    uid: u32,
    index: u32,
    filename: Seq<char>,
    other_uid: u32,
    other_index: u32,
    other_filename: Seq<char>,
)
    requires
        saved_name(uid, index, filename) == saved_name(other_uid, other_index, other_filename),
    ensures
        uid == other_uid,
        index == other_index,
{
    lemma_decimal_digits(uid, other_uid);
    lemma_decimal_digits(other_uid, uid);
    lemma_decimal_digits(index, other_index);
    lemma_decimal_digits(other_index, index);
    lemma_split_twice(
        decimal(uid as nat),
        decimal(index as nat),
        sanitized(filename),
        decimal(other_uid as nat),
        decimal(other_index as nat),
        sanitized(other_filename),
    );
}

/// What is shown as the body of a message is never listed as an attachment.
pub proof fn law_body_is_no_attachment(part: Part)
    requires
        is_inline(part),
    ensures
        !is_attachment(part),
{
}

/// A part gives itself the first `filename` of its disposition as a name, or else
/// the first `name` of its type, or else none; it is an attachment exactly if it
/// is marked as one or that name is not empty.
pub proof fn law_attachments_are_marked_or_named(part: Part, name: Seq<char>)
    ensures
        value_of(part.disposition_params, "filename"@) == Some(name) ==> filename_of(part) == name,
        value_of(part.disposition_params, "filename"@) is None && value_of(
            part.type_params,
            "name"@,
        ) == Some(name) ==> filename_of(part) == name,
        value_of(part.disposition_params, "filename"@) is None && value_of(
            part.type_params,
            "name"@,
        ) is None ==> filename_of(part).len() == 0,
        is_attachment(part) <==> part.attachment || filename_of(part) != Seq::<char>::empty(),
{
    if filename_of(part).len() == 0 {
        assert(filename_of(part) =~= seq![]);
    }
}

/// The attachments of two lists of parts are those of one and then those of the
/// other.
proof fn lemma_all_attachments_concat(a: Seq<Part>, b: Seq<Part>)
    ensures
        all_attachments(a + b) == all_attachments(a) + all_attachments(b),
    decreases b.len(),
{
    if b.len() == 0 {
        assert(a + b =~= a);
        assert(all_attachments(a) + all_attachments(b) =~= all_attachments(a));
    } else {
        lemma_all_attachments_concat(a, b.drop_last());
        assert((a + b).drop_last() =~= a + b.drop_last());
        assert((a + b).last() == b.last());
        assert(all_attachments(a + b) =~= all_attachments(a) + all_attachments(b));
    }
}

/// The attachments of one part are those of the list of it alone.
proof fn lemma_all_attachments_one(part: Part)
    ensures
        all_attachments(seq![part]) == attachments(part),
{
    let one = seq![part];
    assert(one.drop_last() =~= seq![]);
    assert(one.last() == part);
    assert(all_attachments(one.drop_last()) =~= seq![]);
    assert(all_attachments(one) == all_attachments(one.drop_last()) + attachments(one.last()));
    assert(seq![] + attachments(part) =~= attachments(part));
}

/// The attachments of a multipart are those of its parts, one after the other: of
/// the first of them and then of the others, wherever one divides them, of a
/// single part those of that part, and of no part none.
pub proof fn law_a_multipart_has_the_attachments_of_its_parts(
    whole: Part,
    a: Seq<Part>,
    b: Seq<Part>,
    part: Part,
)
    requires
        is_multipart(whole),
    ensures
        attachments(Part { subparts: seq![], ..whole }) == Seq::<Part>::empty(),
        attachments(Part { subparts: seq![part], ..whole }) == attachments(part),
        attachments(Part { subparts: a + b, ..whole }) == attachments(
            Part { subparts: a, ..whole },
        ) + attachments(Part { subparts: b, ..whole }),
{
    let none = Part { subparts: seq![], ..whole };
    let one = Part { subparts: seq![part], ..whole };
    let both = Part { subparts: a + b, ..whole };
    let first = Part { subparts: a, ..whole };
    let second = Part { subparts: b, ..whole };
    lemma_all_attachments_one(part);
    lemma_all_attachments_concat(a, b);
    assert(is_multipart(none) && is_multipart(one) && is_multipart(both));
    assert(is_multipart(first) && is_multipart(second));
    assert(attachments(none) == all_attachments(none.subparts));
    assert(all_attachments(none.subparts) =~= seq![]);
    assert(attachments(one) == all_attachments(one.subparts));
    assert(attachments(both) == all_attachments(both.subparts));
    assert(attachments(first) == all_attachments(first.subparts));
    assert(attachments(second) == all_attachments(second.subparts));
}

/// A part that is no multipart comes first among its attachments if it is one, and
/// what it holds is looked through like the parts of a multipart.
pub proof fn law_a_part_is_its_own_attachment(part: Part, whole: Part)
    requires
        !is_multipart(part),
        is_multipart(whole),
        whole.subparts == part.subparts,
    ensures
        is_attachment(part) ==> attachments(part) == seq![part] + attachments(whole),
        !is_attachment(part) ==> attachments(part) == attachments(whole),
{
    assert(attachments(whole) == all_attachments(whole.subparts));
}

/// A listing has one entry for each attachment, in order: with its number, the
/// name that it gives itself or else one made of the number, its media type, and
/// as many bytes as it decodes to, or none where it cannot be decoded.
pub proof fn law_listing_says_what_is_attached(part: Part, i: int)
    requires
        0 <= i < attachments(part).len(),
        i <= u32::MAX,
    ensures
        ({
            let all = listing(attachments(part), 0);
            let own = attachments(part)[i];
            &&& all.len() == attachments(part).len()
            &&& all[i].index == i
            &&& filename_of(own).len() > 0 ==> all[i].filename == filename_of(own)
            &&& filename_of(own).len() == 0 ==> all[i].filename == "attachment-"@ + decimal(
                i as nat,
            ) + ".bin"@
            &&& all[i].mime == own.mimetype
            &&& own.content matches Ok(bytes) ==> all[i].size == bytes.len()
            &&& own.content is Err ==> all[i].size == 0
        }),
{
}

/// What a download gives are the bytes of the attachment with that number, every
/// one of them, in order, and no others.
pub proof fn law_download_is_byte_for_byte(part: Part, index: u32, limit: nat)
    requires
        downloaded(Ok(part), index, limit) is Ok,
    ensures
        ({
            let (info, bytes) = downloaded(Ok(part), index, limit)->Ok_0;
            &&& index < attachments(part).len()
            &&& attachments(part)[index as int].content matches Ok(content) && bytes.len()
                == content.len() && forall|k: int|
                0 <= k < content.len() ==> #[trigger] bytes[k] == content[k]
            &&& info.index == index
            &&& info.size == bytes.len()
            &&& info.mime == attachments(part)[index as int].mimetype
        }),
{
    let parts = attachments(part);
    lemma_savable_count(parts, limit);
    assert(savable(parts[index as int], limit));
}

/// An attachment can be downloaded exactly if there is one with that number and
/// every attachment of the message can be decoded and is within the limit.
pub proof fn law_when_a_download_succeeds(part: Part, index: u32, limit: nat)
    ensures
        downloaded(Ok(part), index, limit) is Ok <==> index < attachments(part).len() && forall|
            i: int,
        |
            0 <= i < attachments(part).len() ==> (#[trigger] attachments(part)[i].content matches Ok(
                bytes,
            ) && bytes.len() <= limit),
{
    let parts = attachments(part);
    lemma_savable_count(parts, limit);
    let n = savable_count(parts, limit);
    if n < parts.len() {
        assert(!savable(parts[n as int], limit));
        assert(!(parts[n as int].content matches Ok(bytes) && bytes.len() <= limit));
    } else {
        assert forall|i: int| 0 <= i < parts.len() implies (#[trigger] parts[i].content matches Ok(
            bytes,
        ) && bytes.len() <= limit) by {
            assert(savable(parts[i], limit));
        }
    }
}

/// Where a download fails, it says why: that the message cannot be parsed, or what
/// is wrong with the first attachment that cannot be saved, or that there is none
/// with that number.
pub proof fn law_why_a_download_fails(part: Part, n: int, index: u32, limit: nat, e: Seq<char>)
    requires
        0 <= n <= attachments(part).len(),
        forall|i: int|
            0 <= i < n ==> (#[trigger] attachments(part)[i].content matches Ok(bytes)
                && bytes.len() <= limit),
    ensures
        downloaded(Err(e), index, limit) == Err::<(Attached, Seq<u8>), Seq<char>>(e),
        n == attachments(part).len() && index >= n ==> downloaded(Ok(part), index, limit) == Err::<
            (Attached, Seq<u8>),
            Seq<char>,
        >("attachment index "@ + decimal(index as nat) + " not found"@),
        n < attachments(part).len() ==> match attachments(part)[n].content {
            Err(why) => downloaded(Ok(part), index, limit) == Err::<
                (Attached, Seq<u8>),
                Seq<char>,
            >(why),
            Ok(bytes) => bytes.len() > limit ==> downloaded(Ok(part), index, limit) == Err::<
                (Attached, Seq<u8>),
                Seq<char>,
            >(
                "attachment index "@ + decimal(n as nat) + " is "@ + decimal(bytes.len())
                    + " bytes, exceeding the "@ + decimal(limit) + " byte limit"@,
            ),
        },
{
    let parts = attachments(part);
    lemma_savable_count(parts, limit);
    let m = savable_count(parts, limit);
    if m < n {
        assert(!savable(parts[m as int], limit));
        assert(parts[m as int].content matches Ok(bytes) && bytes.len() <= limit);
    }
    if n < m {
        assert(savable(parts[n], limit));
    }
}

/// An attachment is saved under the number of its message, its own number and its
/// name made safe, with dashes between them.
pub proof fn law_saved_path_names_the_attachment(
    out_dir: Seq<char>,
    uid: u32,
    index: u32,
    filename: Seq<char>,
)
    ensures
        ({
            let name = "uid"@ + decimal(uid as nat) + "-"@ + decimal(index as nat) + "-"@
                + sanitized(filename);
            saved_path(out_dir, uid, index, filename) == if out_dir.len() == 0 || out_dir.last()
                == '/' {
                out_dir + name
            } else {
                out_dir + "/"@ + name
            }
        }),
{
    reveal_strlit("uid");
    reveal_strlit("/");
    let name = "uid"@ + decimal(uid as nat) + "-"@ + decimal(index as nat) + "-"@ + sanitized(
        filename,
    );
    assert(name[0] == 'u');
    assert(out_dir + "/"@ + name =~= out_dir.push('/') + name);
}

/// Where a walk through attachments stops is at the first that cannot be decoded
/// or is above the limit, and everything before it is taken with all its bytes,
/// numbered from where the walk started.
pub proof fn law_walking_stops_at_the_first_that_fails(
    parts: Seq<Part>,
    start: nat,
    limit: nat,
    i: int,
)
    ensures
        ({
            let n = savable_count(parts, limit);
            &&& n <= parts.len()
            &&& 0 <= i < n ==> (parts[i].content matches Ok(bytes) && bytes.len() <= limit)
            &&& n < parts.len() ==> !(parts[n as int].content matches Ok(bytes) && bytes.len()
                <= limit)
        }),
        contents(parts, start).len() == parts.len(),
        0 <= i < parts.len() && start + i <= u32::MAX ==> (parts[i].content matches Ok(bytes) ==> {
            let (info, content) = contents(parts, start)[i];
            let name = filename_of(parts[i]);
            &&& content == bytes
            &&& info.index == start + i
            &&& info.mime == parts[i].mimetype
            &&& info.size == bytes.len()
            &&& name.len() > 0 ==> info.filename == name
            &&& name.len() == 0 ==> info.filename == "attachment-"@ + decimal((start + i) as nat)
                + ".bin"@
        }),
{
    lemma_savable_count(parts, limit);
    let n = savable_count(parts, limit);
    if 0 <= i < n {
        assert(savable(parts[i], limit));
    }
}

/// An attachment is refused with the reason why it cannot be decoded, or with its
/// number, its size and the limit.
pub proof fn law_refusals_say_why(part: Part, n: nat, limit: nat)
    ensures
        part.content matches Err(e) ==> refusal(part, n, limit) == e,
        part.content matches Ok(bytes) ==> refusal(part, n, limit) == "attachment index "@
            + decimal(n) + " is "@ + decimal(bytes.len()) + " bytes, exceeding the "@ + decimal(
            limit,
        ) + " byte limit"@,
{
}

/// A walk that starts at some number lists what a walk from zero would, with the
/// numbers moved on.
pub proof fn law_walking_goes_on_counting(parts: Seq<Part>, start: nat, i: int)
    requires
        0 <= i < parts.len(),
        start + i <= u32::MAX,
    ensures
        listing(parts, start).len() == parts.len(),
        listing(parts, start)[i].index == start + i,
        listing(parts, start)[i].mime == parts[i].mimetype,
        listing(parts, start)[i].size == listing(parts, 0)[i].size,
        filename_of(parts[i]).len() > 0 ==> listing(parts, start)[i].filename == filename_of(
            parts[i],
        ),
        filename_of(parts[i]).len() == 0 ==> listing(parts, start)[i].filename == "attachment-"@
            + decimal((start + i) as nat) + ".bin"@,
{
}

/// Attachments, with or without their content, are known by all that is said of
/// them, as many and in order.
pub proof fn law_attachments_are_known_whole(
    infos: Seq<AttachmentInfo>,
    found: Seq<(AttachmentInfo, Vec<u8>)>,
    r: Result<(AttachmentInfo, Vec<u8>), String>,
)
    ensures
        info_views(infos).len() == infos.len(),
        forall|i: int|
            0 <= i < infos.len() ==> {
                let info = #[trigger] info_views(infos)[i];
                &&& info.index == infos[i].index
                &&& info.filename == infos[i].filename@
                &&& info.mime == infos[i].mime@
                &&& info.size == infos[i].size
            },
        content_views(found).len() == found.len(),
        forall|i: int|
            0 <= i < found.len() ==> #[trigger] content_views(found)[i] == (
                found[i].0@,
                found[i].1@,
            ),
        match r {
            Ok(f) => download_view(r) == Ok::<(Attached, Seq<u8>), Seq<char>>((f.0@, f.1@)),
            Err(e) => download_view(r) == Err::<(Attached, Seq<u8>), Seq<char>>(e@),
        },
{
}

}
