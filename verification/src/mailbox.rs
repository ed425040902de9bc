//! Reading a mailbox: what to ask the IMAP server for, one step after another,
//! and what its replies amount to.
use vstd::prelude::*;
use vstd::relations::{sorted_by, total_ordering};

use crate::attachment;
use crate::attachment::{
    attachments, downloaded, info_views, listing, saved_path, AttachmentInfo,
};
use crate::email;
use crate::email::{header_or_empty, shown, summary, EmailSummary, Summary};
use crate::mime;
use crate::mime::{pair_texts, parsed, parsed_headers};
use crate::text;
use crate::text::{decimal, joined, replaced, views};

verus! {

/// A message as the server sent it: its UID, and the part of it that was asked
/// for.
pub struct Fetched {
    pub uid: Option<u32>,
    pub data: Option<Vec<u8>>,
}

/// A `Fetched` with its bytes.
pub struct Reply {
    pub uid: Option<u32>,
    pub data: Option<Seq<u8>>,
}

impl View for Fetched {
    type V = Reply;

    open spec fn view(&self) -> Reply {
        Reply {
            uid: self.uid,
            data: match self.data {
                Some(bytes) => Some(bytes@),
                None => None,
            },
        }
    }
}

/// The server's replies.
pub open spec fn replies(fetched: Seq<Fetched>) -> Seq<Reply> {
    fetched.map_values(|m: Fetched| m@)
}

/// What to do next in the selected folder.
pub enum MailboxStep<T> {
    /// Search it with this command; the answer is the UIDs of what was found, not
    /// sequence numbers.
    Search(String),
    /// Fetch these items of the messages with these UIDs.
    Fetch { uids: String, items: String },
    /// Nothing more.
    Done(T),
}

/// A list of messages in a folder.
pub struct Listing {
    pub folder: String,
    pub query: Option<String>,
    pub total: usize,
    pub emails: Vec<EmailSummary>,
}

/// What several messages show.
pub open spec fn summary_views(emails: Seq<EmailSummary>) -> Seq<Summary> {
    emails.map_values(|e: EmailSummary| e@)
}

/// How many messages to list: what was asked for, but at least one and at most
/// fifty.
pub open spec fn page_size(limit: u32) -> nat {
    if limit < 1 {
        1
    } else if limit > 50 {
        50
    } else {
        limit as nat
    }
}

/// UIDs from the lowest to the highest.
pub open spec fn ascending(uids: Seq<u32>) -> Seq<u32> {
    uids.sort_by(|a: u32, b: u32| a <= b)
}

/// The `n` highest of `uids`, or all of them, from the highest down.
pub open spec fn newest(uids: Seq<u32>, n: nat) -> Seq<u32> {
    let down = ascending(uids).reverse();
    if down.len() <= n {
        down
    } else {
        down.take(n as int)
    }
}

/// `sort_unstable` of slices, on `u32`: puts the numbers in ascending order and
/// keeps each as often as it was there.
#[verifier::external_body]
fn sort_ascending(uids: &mut Vec<u32>)
    ensures
        forall|i: int, j: int| 0 <= i <= j < final(uids)@.len() ==> final(uids)@[i] <= final(uids)@[j],
        final(uids)@.to_multiset() == old(uids)@.to_multiset(),
{
    uids.sort_unstable()
}

/// Numbers in ascending order are the sorted ones.
proof fn lemma_ascending(uids: Seq<u32>, sorted: Seq<u32>)
    requires
        forall|i: int, j: int| 0 <= i <= j < sorted.len() ==> sorted[i] <= sorted[j],
        sorted.to_multiset() == uids.to_multiset(),
    ensures
        sorted == ascending(uids),
{
    let leq = |a: u32, b: u32| a <= b;
    assert(total_ordering(leq));
    uids.lemma_sort_by_ensures(leq);
    assert(sorted_by(sorted, leq));
    vstd::seq_lib::lemma_sorted_unique(sorted, uids.sort_by(leq), leq);
}

/// Sorting keeps the number of UIDs.
proof fn lemma_ascending_len(uids: Seq<u32>)
    ensures
        ascending(uids).len() == uids.len(),
{
    broadcast use vstd::seq_lib::group_to_multiset_ensures;

    let leq = |a: u32, b: u32| a <= b;
    assert(total_ordering(leq));
    uids.lemma_sort_by_ensures(leq);
    assert(uids.to_multiset().len() == uids.len());
    assert(uids.sort_by(leq).to_multiset().len() == uids.sort_by(leq).len());
}

/// The `n` highest UIDs, from the highest down.
fn take_newest(uids: &Vec<u32>, n: usize) -> (r: Vec<u32>)
    ensures
        r@ == newest(uids@, n as nat),
{
    let mut sorted: Vec<u32> = uids.clone();
    assert(sorted@ =~= uids@);
    sort_ascending(&mut sorted);
    proof {
        lemma_ascending(uids@, sorted@);
    }
    let ghost down = ascending(uids@).reverse();
    let mut r: Vec<u32> = Vec::new();
    let mut left: usize = sorted.len();
    while left > 0 && r.len() < n
        invariant
            left + r@.len() == sorted@.len(),
            r@.len() <= n,
            sorted@ == ascending(uids@),
            down == ascending(uids@).reverse(),
            r@ =~= down.take(r@.len() as int),
        decreases left,
    {
        left -= 1;
        r.push(sorted[left]);
    }
    r
}

/// UIDs as a set in a request.
pub open spec fn uid_set(uids: Seq<u32>) -> Seq<char> {
    joined(uids.map_values(|u: u32| decimal(u as nat)), ","@)
}

/// UIDs as a set in a request.
fn show_uids(uids: &Vec<u32>) -> (r: String)
    ensures
        r@ == uid_set(uids@),
{
    let ghost all = uids@.map_values(|u: u32| decimal(u as nat));
    let mut parts: Vec<String> = Vec::new();
    let mut i: usize = 0;
    while i < uids.len()
        invariant
            i <= uids@.len(),
            all == uids@.map_values(|u: u32| decimal(u as nat)),
            views(parts@) =~= all.take(i as int),
        decreases uids@.len() - i,
    {
        let ghost before = views(parts@);
        let part = text::show(uids[i] as u64);
        parts.push(part);
        assert(views(parts@) =~= before.push(part@));
        assert(all.take(i + 1) =~= all.take(i as int).push(all[i as int]));
        i += 1;
    }
    assert(all.take(all.len() as int) =~= all);
    text::join(&parts, ",")
}

/// The summaries of the messages that came with a header, in order. A message
/// without a UID counts as number zero.
pub open spec fn summaries(messages: Seq<Reply>) -> Seq<Summary>
    decreases messages.len(),
{
    if messages.len() == 0 {
        seq![]
    } else {
        let before = summaries(messages.drop_last());
        let last = messages.last();
        match last.data {
            Some(header) => before.push(
                summary(
                    match last.uid {
                        Some(uid) => uid,
                        None => 0,
                    },
                    parsed(header),
                ),
            ),
            None => before,
        }
    }
}

/// Those of `items` that have this UID, in order.
pub open spec fn with_uid(items: Seq<Summary>, uid: u32) -> Seq<Summary> {
    items.filter(|s: Summary| s.uid == uid)
}

/// Whether `sorted` holds `items` with the highest UID first, and those with
/// the same UID in the order in which they came.
pub open spec fn newest_first(sorted: Seq<Summary>, items: Seq<Summary>) -> bool {
    &&& forall|i: int, j: int| 0 <= i <= j < sorted.len() ==> sorted[i].uid >= sorted[j].uid
    &&& forall|uid: u32| with_uid(sorted, uid) == #[trigger] with_uid(items, uid)
}

/// None of `items` has a UID that all of them differ from.
proof fn lemma_none_with_uid(items: Seq<Summary>, uid: u32)
    requires
        forall|i: int| 0 <= i < items.len() ==> (#[trigger] items[i]).uid != uid,
    ensures
        with_uid(items, uid) == Seq::<Summary>::empty(),
    decreases items.len(),
{
    reveal(Seq::filter);
    if items.len() > 0 {
        assert forall|i: int| 0 <= i < items.drop_last().len() implies (
        #[trigger] items.drop_last()[i]).uid != uid by {
            assert(items[i].uid != uid);
        }
        lemma_none_with_uid(items.drop_last(), uid);
    }
}

/// A newcomer goes behind everything that is not older than it.
proof fn lemma_placed(sorted: Seq<Summary>, items: Seq<Summary>, x: Summary, k: int)
    requires
        newest_first(sorted, items),
        0 <= k <= sorted.len(),
        forall|i: int| 0 <= i < k ==> (#[trigger] sorted[i]).uid >= x.uid,
        forall|i: int| k <= i < sorted.len() ==> (#[trigger] sorted[i]).uid < x.uid,
    ensures
        newest_first(sorted.insert(k, x), items.push(x)),
{
    let a = sorted.take(k);
    let b = sorted.skip(k);
    let one = seq![x];
    assert(sorted =~= a + b);
    assert(sorted.insert(k, x) =~= a + one + b);
    assert(items.push(x) =~= items + one);
    assert forall|uid: u32|
        with_uid(sorted.insert(k, x), uid) == #[trigger] with_uid(items.push(x), uid) by {
        let p = |s: Summary| s.uid == uid;
        Seq::filter_distributes_over_add(a, b, p);
        Seq::filter_distributes_over_add(a + one, b, p);
        Seq::filter_distributes_over_add(a, one, p);
        Seq::filter_distributes_over_add(items, one, p);
        assert(with_uid(sorted, uid) == with_uid(items, uid));
        if uid == x.uid {
            lemma_none_with_uid(b, uid);
            assert(a.filter(p) + b.filter(p) =~= a.filter(p));
            assert(a.filter(p) + one.filter(p) + b.filter(p) =~= a.filter(p) + one.filter(p));
        } else {
            lemma_none_with_uid(one, uid);
            assert(a.filter(p) + one.filter(p) =~= a.filter(p));
            assert(items.filter(p) + one.filter(p) =~= items.filter(p));
        }
    }
}

/// Puts a message in its place in a list with the newest first.
fn place(sorted: &mut Vec<EmailSummary>, x: EmailSummary, Ghost(items): Ghost<Seq<Summary>>)
    requires
        newest_first(summary_views(old(sorted)@), items),
    ensures
        newest_first(summary_views(final(sorted)@), items.push(x@)),
{
    let ghost all = summary_views(sorted@);
    let mut k: usize = 0;
    while k < sorted.len() && sorted[k].uid >= x.uid
        invariant
            k <= sorted@.len(),
            all == summary_views(sorted@),
            forall|i: int| 0 <= i < k ==> (#[trigger] all[i]).uid >= x@.uid,
        decreases sorted@.len() - k,
    {
        assert(all[k as int] == sorted@[k as int]@);
        k += 1;
    }
    proof {
        assert forall|i: int| k <= i < all.len() implies (#[trigger] all[i]).uid < x@.uid by {
            assert(all[k as int] == sorted@[k as int]@);
            assert(all[k as int].uid >= all[i].uid);
        }
        lemma_placed(all, items, x@, k as int);
    }
    sorted.insert(k, x);
    assert(summary_views(sorted@) =~= all.insert(k as int, x@));
}

/// The summaries of fetched messages, newest first: replies may come in any
/// order.
fn summarize_replies(fetched: &Vec<Fetched>) -> (r: Vec<EmailSummary>)
    ensures
        newest_first(summary_views(r@), summaries(replies(fetched@))),
{
    let ghost all = replies(fetched@);
    let mut out: Vec<EmailSummary> = Vec::new();
    let mut i: usize = 0;
    proof {
        assert(all.take(0) =~= seq![]);
        assert(summary_views(out@) =~= summaries(all.take(0)));
    }
    while i < fetched.len()
        invariant
            i <= fetched@.len() == all.len(),
            all == replies(fetched@),
            newest_first(summary_views(out@), summaries(all.take(i as int))),
        decreases fetched@.len() - i,
    {
        let m = &fetched[i];
        assert(all.take(i + 1).drop_last() =~= all.take(i as int));
        assert(all.take(i + 1).last() == m@);
        let uid: u32 = match m.uid {
            Some(uid) => uid,
            None => 0,
        };
        if let Some(header) = &m.data {
            let email = email::parse_summary(uid, header.as_slice());
            place(&mut out, email, Ghost(summaries(all.take(i as int))));
        }
        i += 1;
    }
    assert(all.take(all.len() as int) =~= all);
    out
}

/// The search command for a free-text query, or for everything. A double quote
/// in the query becomes a single one.
pub open spec fn search_command(query: Option<Seq<char>>) -> Seq<char> {
    match query {
        Some(query) => "TEXT \""@ + replaced(query, "\""@, "'"@) + "\""@,
        None => "ALL"@,
    }
}

/// Whether `listing` is the one of `folder` for `query` with these messages,
/// newest first.
pub open spec fn lists(
    listing: Listing,
    folder: Seq<char>,
    query: Option<Seq<char>>,
    total: nat,
    messages: Seq<Summary>,
) -> bool {
    &&& listing.folder@ == folder
    &&& mime::text_of(listing.query) == query
    &&& listing.total == total
    &&& newest_first(summary_views(listing.emails@), messages)
}

/// Whether `step` is the next one in listing the newest messages of a folder,
/// given what is known so far: first the search, then the headers of the newest
/// messages found, if there are any, and then the list.
pub open spec fn is_listing_step(
    step: MailboxStep<Listing>,
    folder: Seq<char>,
    query: Option<Seq<char>>,
    limit: u32,
    found: Option<Seq<u32>>,
    fetched: Option<Seq<Reply>>,
) -> bool {
    match found {
        None => step matches MailboxStep::Search(command) && command@ == search_command(query),
        Some(uids) => {
            if uids.len() == 0 {
                step matches MailboxStep::Done(listing) && lists(listing, folder, query, 0, seq![])
            } else {
                match fetched {
                    None => step matches MailboxStep::Fetch { uids: set, items } && set@ == uid_set(
                        newest(uids, page_size(limit)),
                    ) && items@ == "RFC822.HEADER"@,
                    Some(messages) => step matches MailboxStep::Done(listing) && lists(
                        listing,
                        folder,
                        query,
                        uids.len(),
                        summaries(messages),
                    ),
                }
            }
        },
    }
}

/// UIDs that a search found, if it has been made.
pub open spec fn found_uids(found: Option<Vec<u32>>) -> Option<Seq<u32>> {
    match found {
        Some(uids) => Some(uids@),
        None => None,
    }
}

/// Messages that were fetched, if they have been asked for.
pub open spec fn fetched_replies(fetched: Option<Vec<Fetched>>) -> Option<Seq<Reply>> {
    match fetched {
        Some(messages) => Some(replies(messages@)),
        None => None,
    }
}

/// The next step in listing the newest messages found by `command`.
fn list_step(
    command: String,
    folder: &str,
    query: Option<String>,
    limit: u32,
    found: &Option<Vec<u32>>,
    fetched: &Option<Vec<Fetched>>,
) -> (step: MailboxStep<Listing>)
    requires
        command@ == search_command(mime::text_of(query)),
    ensures
        is_listing_step(
            step,
            folder@,
            mime::text_of(query),
            limit,
            found_uids(*found),
            fetched_replies(*fetched),
        ),
{
    let limit: usize = if limit < 1 {
        1
    } else if limit > 50 {
        50
    } else {
        limit as usize
    };
    let uids = match found {
        None => return MailboxStep::Search(command),
        Some(uids) => uids,
    };
    let total: usize = uids.len();
    let take = take_newest(uids, limit);
    proof {
        lemma_ascending_len(uids@);
    }
    if take.len() == 0 {
        let emails: Vec<EmailSummary> = Vec::new();
        assert(summary_views(emails@) =~= seq![]);
        return MailboxStep::Done(Listing { folder: folder.to_string(), query, total, emails });
    }
    match fetched {
        None => MailboxStep::Fetch { uids: show_uids(&take), items: "RFC822.HEADER".to_string() },
        Some(messages) => {
            let emails = summarize_replies(messages);
            MailboxStep::Done(Listing { folder: folder.to_string(), query, total, emails })
        },
    }
}

/// The next step in listing the newest messages of a folder.
pub fn do_list(
    folder: &str,
    limit: u32,
    found: &Option<Vec<u32>>,
    fetched: &Option<Vec<Fetched>>,
) -> (step: MailboxStep<Listing>)
    ensures
        is_listing_step(
            step,
            folder@,
            None,
            limit,
            found_uids(*found),
            fetched_replies(*fetched),
        ),
{
    list_step("ALL".to_string(), folder, None, limit, found, fetched)
}

/// The next step in listing the newest messages of a folder that match a query.
pub fn do_search(
    folder: &str,
    query: &str,
    limit: u32,
    found: &Option<Vec<u32>>,
    fetched: &Option<Vec<Fetched>>,
) -> (step: MailboxStep<Listing>)
    ensures
        is_listing_step(
            step,
            folder@,
            Some(query@),
            limit,
            found_uids(*found),
            fetched_replies(*fetched),
        ),
{
    proof {
        reveal_strlit("\"");
    }
    let q = text::replace(query, "\"", "'");
    let command = "TEXT \"".to_string().concat(q.as_str()).concat("\"");
    list_step(command, folder, Some(query.to_string()), limit, found, fetched)
}

/// What a reply to a request for one message holds: the bytes of the first
/// message in it, or the reason why there are none.
pub open spec fn first_data(
    messages: Seq<Reply>,
    missing: Seq<char>,
    empty: Seq<char>,
) -> Result<Seq<u8>, Seq<char>> {
    if messages.len() == 0 {
        Err(missing)
    } else {
        match messages[0].data {
            Some(bytes) => Ok(bytes),
            None => Err(empty),
        }
    }
}

/// The note that a folder does not hold the message asked for.
pub open spec fn not_in_folder(uid: u32, folder: Seq<char>) -> Seq<char> {
    "message UID "@ + decimal(uid as nat) + " not found in "@ + folder
}

/// The note that a folder does not hold the message asked for.
fn note_not_in_folder(uid: u32, folder: &str) -> (r: String)
    ensures
        r@ == not_in_folder(uid, folder@),
{
    "message UID ".to_string().concat(text::show(uid as u64).as_str()).concat(
        " not found in ",
    ).concat(folder)
}

/// The bytes of the first message of a reply.
fn first_bytes(messages: &Vec<Fetched>, missing: String, empty: String) -> (r: Result<
    Vec<u8>,
    String,
>)
    ensures
        mime::bytes_of(r) == first_data(replies(messages@), missing@, empty@),
{
    if messages.len() == 0 {
        return Err(missing);
    }
    assert(replies(messages@)[0] == messages@[0]@);
    match &messages[0].data {
        Some(bytes) => {
            let copy = bytes.clone();
            assert(copy@ =~= bytes@);
            Ok(copy)
        },
        None => Err(empty),
    }
}

/// Whether `step` asks for `items` of the message `uid`.
pub open spec fn asks_for<T>(step: MailboxStep<T>, uid: u32, items: Seq<char>) -> bool {
    step matches MailboxStep::Fetch { uids, items: asked } && uids@ == decimal(uid as nat)
        && asked@ == items
}

/// The request for `items` of the message `uid`.
fn ask<T>(uid: u32, items: &str) -> (step: MailboxStep<T>)
    ensures
        asks_for(step, uid, items@),
{
    MailboxStep::Fetch { uids: text::show(uid as u64), items: items.to_string() }
}

/// A message that was read.
pub struct ReadEmail {
    pub folder: String,
    pub uid: u32,
    pub headers: String,
    pub body: String,
}

/// Whether `r` is what reading the message `uid` gives, for what was fetched.
pub open spec fn is_read(
    r: Result<ReadEmail, String>,
    folder: Seq<char>,
    uid: u32,
    messages: Seq<Reply>,
) -> bool {
    match first_data(messages, not_in_folder(uid, folder), "empty body"@) {
        Err(note) => r matches Err(e) && e@ == note,
        Ok(raw) => r matches Ok(email) && email.folder@ == folder && email.uid == (
        match messages[0].uid {
            Some(sent) => sent,
            None => uid,
        }) && (email.headers@, email.body@) == shown(parsed(raw)),
    }
}

/// The next step in reading the message `uid`: it is fetched, and then shown.
pub fn do_read(folder: &str, uid: u32, fetched: &Option<Vec<Fetched>>) -> (step: MailboxStep<
    Result<ReadEmail, String>,
>)
    ensures
        match fetched_replies(*fetched) {
            None => asks_for(step, uid, "RFC822"@),
            Some(messages) => step matches MailboxStep::Done(r) && is_read(
                r,
                folder@,
                uid,
                messages,
            ),
        },
{
    let messages = match fetched {
        None => return ask(uid, "RFC822"),
        Some(messages) => messages,
    };
    let raw = match first_bytes(messages, note_not_in_folder(uid, folder), "empty body".to_string()) {
        Ok(raw) => raw,
        Err(e) => return MailboxStep::Done(Err(e)),
    };
    assert(replies(messages@)[0] == messages@[0]@);
    let sent_uid: u32 = match messages[0].uid {
        Some(sent) => sent,
        None => uid,
    };
    let (headers, body) = email::extract_body(raw.as_slice());
    MailboxStep::Done(Ok(ReadEmail { folder: folder.to_string(), uid: sent_uid, headers, body }))
}

/// The attachments of a message.
pub struct AttachmentList {
    pub folder: String,
    pub uid: u32,
    pub attachments: Vec<AttachmentInfo>,
}

/// Whether `r` is the list of the attachments of the message `uid`, for what was
/// fetched.
pub open spec fn is_attachment_list(
    r: Result<AttachmentList, String>,
    folder: Seq<char>,
    uid: u32,
    messages: Seq<Reply>,
) -> bool {
    match first_data(messages, not_in_folder(uid, folder), "empty body"@) {
        Err(note) => r matches Err(e) && e@ == note,
        Ok(raw) => match parsed(raw) {
            Err(note) => r matches Err(e) && e@ == note,
            Ok(part) => r matches Ok(list) && list.folder@ == folder && list.uid == uid
                && info_views(list.attachments@) == listing(attachments(part), 0),
        },
    }
}

/// The next step in listing the attachments of the message `uid`.
pub fn do_list_attachments(folder: &str, uid: u32, fetched: &Option<Vec<Fetched>>) -> (step:
    MailboxStep<Result<AttachmentList, String>>)
    ensures
        match fetched_replies(*fetched) {
            None => asks_for(step, uid, "RFC822"@),
            Some(messages) => step matches MailboxStep::Done(r) && is_attachment_list(
                r,
                folder@,
                uid,
                messages,
            ),
        },
{
    let messages = match fetched {
        None => return ask(uid, "RFC822"),
        Some(messages) => messages,
    };
    let raw = match first_bytes(messages, note_not_in_folder(uid, folder), "empty body".to_string()) {
        Ok(raw) => raw,
        Err(e) => return MailboxStep::Done(Err(e)),
    };
    match attachment::collect_attachments(raw.as_slice()) {
        Ok(attachments) => MailboxStep::Done(
            Ok(AttachmentList { folder: folder.to_string(), uid, attachments }),
        ),
        Err(e) => MailboxStep::Done(Err(e)),
    }
}

/// An attachment to save: its description, its content and where it goes.
pub struct Download {
    pub folder: String,
    pub uid: u32,
    pub filename: String,
    pub mime: String,
    pub size: usize,
    pub out_dir: String,
    pub path: String,
    pub bytes: Vec<u8>,
}

/// Whether `r` is what downloading the attachment `index` of the message `uid`
/// into `out_dir` gives, for what was fetched.
pub open spec fn is_download(
    r: Result<Download, String>,
    folder: Seq<char>,
    uid: u32,
    index: u32,
    out_dir: Seq<char>,
    limit: nat,
    messages: Seq<Reply>,
) -> bool {
    match first_data(messages, not_in_folder(uid, folder), "empty body"@) {
        Err(note) => r matches Err(e) && e@ == note,
        Ok(raw) => match downloaded(parsed(raw), index, limit) {
            Err(note) => r matches Err(e) && e@ == note,
            Ok((info, bytes)) => r matches Ok(file) && file.folder@ == folder && file.uid == uid
                && file.filename@ == info.filename && file.mime@ == info.mime && file.size
                == info.size && file.out_dir@ == out_dir && file.path@ == saved_path(
                out_dir,
                uid,
                index,
                info.filename,
            ) && file.bytes@ == bytes,
        },
    }
}

/// The next step in downloading the attachment `index` of the message `uid`: the
/// message is fetched, and then the attachment picked out of it.
pub fn do_download_attachment(
    folder: &str,
    uid: u32,
    index: u32,
    out_dir: &str,
    limit: usize,
    fetched: &Option<Vec<Fetched>>,
) -> (step: MailboxStep<Result<Download, String>>)
    ensures
        match fetched_replies(*fetched) {
            None => asks_for(step, uid, "RFC822"@),
            Some(messages) => step matches MailboxStep::Done(r) && is_download(
                r,
                folder@,
                uid,
                index,
                out_dir@,
                limit as nat,
                messages,
            ),
        },
{
    let messages = match fetched {
        None => return ask(uid, "RFC822"),
        Some(messages) => messages,
    };
    let raw = match first_bytes(messages, note_not_in_folder(uid, folder), "empty body".to_string()) {
        Ok(raw) => raw,
        Err(e) => return MailboxStep::Done(Err(e)),
    };
    match attachment::download(raw.as_slice(), index, limit) {
        Ok((info, bytes)) => {
            let path = attachment::save_path(out_dir, uid, index, info.filename.as_str());
            MailboxStep::Done(
                Ok(
                    Download {
                        folder: folder.to_string(),
                        uid,
                        filename: info.filename,
                        mime: info.mime,
                        size: info.size,
                        out_dir: out_dir.to_string(),
                        path,
                        bytes,
                    },
                ),
            )
        },
        Err(e) => MailboxStep::Done(Err(e)),
    }
}

/// The headers that a reply goes by.
pub struct ThreadHeaders {
    pub message_id: String,
    pub from: String,
    pub subject: String,
}

/// Whether `r` holds the headers that a reply to the message `uid` goes by, for
/// what was fetched.
pub open spec fn is_thread(
    r: Result<ThreadHeaders, String>,
    uid: u32,
    messages: Seq<Reply>,
) -> bool {
    match first_data(
        messages,
        "message UID "@ + decimal(uid as nat) + " not found"@,
        "empty header"@,
    ) {
        Err(note) => r matches Err(e) && e@ == note,
        Ok(raw) => match parsed_headers(raw) {
            Err(note) => r matches Err(e) && e@ == note,
            Ok(headers) => r matches Ok(thread) && thread.message_id@ == header_or_empty(
                headers,
                "Message-ID"@,
            ) && thread.from@ == header_or_empty(headers, "From"@) && thread.subject@ == header_or_empty(
                headers,
                "Subject"@,
            ),
        },
    }
}

/// The headers that a reply goes by, out of all of a message.
pub fn thread_of(headers: &Vec<(String, String)>) -> (r: ThreadHeaders)
    ensures
        r.message_id@ == header_or_empty(pair_texts(headers@), "Message-ID"@),
        r.from@ == header_or_empty(pair_texts(headers@), "From"@),
        r.subject@ == header_or_empty(pair_texts(headers@), "Subject"@),
{
    ThreadHeaders {
        message_id: email::header_value(headers, "Message-ID"),
        from: email::header_value(headers, "From"),
        subject: email::header_value(headers, "Subject"),
    }
}

/// The next step in finding what a reply to the message `uid` goes by: its
/// headers are fetched, and then read.
pub fn do_fetch_thread_headers(uid: u32, fetched: &Option<Vec<Fetched>>) -> (step: MailboxStep<
    Result<ThreadHeaders, String>,
>)
    ensures
        match fetched_replies(*fetched) {
            None => asks_for(step, uid, "RFC822.HEADER"@),
            Some(messages) => step matches MailboxStep::Done(r) && is_thread(r, uid, messages),
        },
{
    let messages = match fetched {
        None => return ask(uid, "RFC822.HEADER"),
        Some(messages) => messages,
    };
    let missing = "message UID ".to_string().concat(text::show(uid as u64).as_str()).concat(
        " not found",
    );
    let raw = match first_bytes(messages, missing, "empty header".to_string()) {
        Ok(raw) => raw,
        Err(e) => return MailboxStep::Done(Err(e)),
    };
    match mime::parse_headers(raw.as_slice()) {
        Ok(headers) => MailboxStep::Done(Ok(thread_of(&headers))),
        Err(e) => MailboxStep::Done(Err(e)),
    }
}

/// A listing takes at most a search and a fetch: with both replies there, it is
/// done.
pub proof fn law_listing_ends(
    step: MailboxStep<Listing>,
    folder: Seq<char>,
    query: Option<Seq<char>>,
    limit: u32,
    uids: Seq<u32>,
    messages: Seq<Reply>,
)
    requires
        is_listing_step(step, folder, query, limit, Some(uids), Some(messages)),
    ensures
        step is Done,
{
}

/// A listing asks for the newest messages, newest first: at most fifty, none of
/// them older than one that is left out, and all of them if there are few.
pub proof fn law_listing_asks_for_the_newest(uids: Seq<u32>, limit: u32)
    ensures
        ({
            let picked = newest(uids, page_size(limit));
            let sorted = ascending(uids);
            &&& 1 <= page_size(limit) <= 50
            &&& picked.len() == if uids.len() <= page_size(limit) {
                uids.len()
            } else {
                page_size(limit)
            }
            &&& sorted.to_multiset() == uids.to_multiset()
            &&& forall|i: int|
                0 <= i < picked.len() ==> #[trigger] picked[i] == sorted[sorted.len() - 1 - i]
            &&& forall|i: int, j: int| 0 <= i <= j < picked.len() ==> picked[i] >= picked[j]
            &&& forall|i: int, k: int|
                0 <= i < picked.len() && 0 <= k < sorted.len() - picked.len() ==> #[trigger] picked[i]
                    >= #[trigger] sorted[k]
        }),
{
    lemma_ascending_len(uids);
    let leq = |a: u32, b: u32| a <= b;
    assert(total_ordering(leq));
    uids.lemma_sort_by_ensures(leq);
    let sorted = ascending(uids);
    assert(sorted_by(sorted, leq));
    assert forall|i: int, j: int| 0 <= i <= j < sorted.len() implies sorted[i] <= sorted[j] by {
        if i < j {
            assert(leq(sorted[i], sorted[j]));
        }
    }
}

/// No double quote is left in a query.
proof fn lemma_no_quote(s: Seq<char>)
    ensures
        !replaced(s, "\""@, "'"@).contains('"'),
    decreases s.len(),
{
    reveal_strlit("\"");
    reveal_strlit("'");
    let r = replaced(s, "\""@, "'"@);
    if s.len() > 0 {
        lemma_no_quote(s.skip(1));
        let rest = replaced(s.skip(1), "\""@, "'"@);
        if s[0] == '"' {
            assert("\""@ =~= s.subrange(0, 1));
            assert(r =~= "'"@ + rest);
        } else {
            assert(!"\""@.is_prefix_of(s)) by {
                assert(s.subrange(0, 1)[0] == s[0]);
            }
            assert(r =~= seq![s[0]] + rest);
        }
        if r.contains('"') {
            let i = choose|i: int| 0 <= i < r.len() && r[i] == '"';
            assert(i > 0);
            assert(rest[i - 1] == '"');
        }
    }
}

/// Whatever a query holds, the search command has one double quote before it and
/// one behind it, and no other.
pub proof fn law_query_adds_no_quotes(query: Seq<char>)
    ensures
        ({
            let command = search_command(Some(query));
            forall|i: int|
                0 <= i < command.len() ==> (#[trigger] command[i] == '"' <==> i == 5 || i
                    == command.len() - 1)
        }),
{
    reveal_strlit("TEXT \"");
    reveal_strlit("\"");
    lemma_no_quote(query);
    let q = replaced(query, "\""@, "'"@);
    let command = search_command(Some(query));
    assert forall|i: int| 0 <= i < command.len() implies (#[trigger] command[i] == '"' <==> i == 5
        || i == command.len() - 1) by {
        if i < 6 {
            assert(command[i] == "TEXT \""@[i]);
        } else if i < 6 + q.len() {
            assert(command[i] == q[i - 6]);
            assert(!q.contains('"'));
        }
    }
}

/// What was filtered out of a list by its UID was in the list.
proof fn lemma_with_uid_from(items: Seq<Summary>, uid: u32)
    requires
        with_uid(items, uid).len() > 0,
    ensures
        exists|i: int| 0 <= i < items.len() && (#[trigger] items[i]).uid == uid,
    decreases items.len(),
{
    reveal(Seq::filter);
    if items.last().uid != uid {
        lemma_with_uid_from(items.drop_last(), uid);
        let i = choose|i: int|
            0 <= i < items.drop_last().len() && (#[trigger] items.drop_last()[i]).uid == uid;
        assert(items[i].uid == uid);
    }
}

/// The order of a listing is determined: there is only one way to put messages
/// in order with the newest first.
pub proof fn law_listing_order_is_determined(a: Seq<Summary>, b: Seq<Summary>, items: Seq<Summary>)
    requires
        newest_first(a, items),
        newest_first(b, items),
    ensures
        a == b,
    decreases a.len(),
{
    reveal(Seq::filter);
    assert forall|uid: u32| with_uid(a, uid) == with_uid(b, uid) by {
        assert(with_uid(a, uid) == with_uid(items, uid));
        assert(with_uid(b, uid) == with_uid(items, uid));
    }
    if a.len() == 0 {
        if b.len() > 0 {
            assert(with_uid(b, b.last().uid).len() > 0);
            assert(with_uid(a, b.last().uid).len() == 0);
        }
        assert(a =~= b);
    } else {
        let m = a.last().uid;
        assert(with_uid(a, m).len() > 0);
        lemma_with_uid_from(b, m);
        let n = b.last().uid;
        assert(with_uid(b, n).len() > 0);
        lemma_with_uid_from(a, n);
        assert(m == n);
        assert(with_uid(a, m).last() == a.last());
        assert(with_uid(b, m).last() == b.last());
        let x = a.drop_last();
        let y = b.drop_last();
        assert forall|uid: u32| with_uid(x, uid) == #[trigger] with_uid(y, uid) by {
            assert(with_uid(a, uid) == with_uid(b, uid));
            if uid == m {
                assert(with_uid(a, uid) == with_uid(x, uid).push(a.last()));
                assert(with_uid(b, uid) == with_uid(y, uid).push(b.last()));
                assert(with_uid(x, uid) =~= with_uid(a, uid).drop_last());
                assert(with_uid(y, uid) =~= with_uid(b, uid).drop_last());
            }
        }
        law_listing_order_is_determined(x, y, y);
        assert(a =~= x.push(a.last()));
        assert(b =~= y.push(b.last()));
    }
}

/// A message is as often in a list as among those with its UID.
proof fn lemma_count_with_uid(items: Seq<Summary>, x: Summary)
    ensures
        items.to_multiset().count(x) == with_uid(items, x.uid).to_multiset().count(x),
    decreases items.len(),
{
    broadcast use vstd::seq_lib::group_to_multiset_ensures;

    reveal(Seq::filter);
    if items.len() > 0 {
        let before = items.drop_last();
        lemma_count_with_uid(before, x);
        assert(items =~= before.push(items.last()));
        assert(items.to_multiset() =~= before.to_multiset().insert(items.last()));
        let part = with_uid(before, x.uid);
        if items.last().uid == x.uid {
            assert(with_uid(items, x.uid) == part.push(items.last()));
            assert(with_uid(items, x.uid).to_multiset() =~= part.to_multiset().insert(
                items.last(),
            ));
        }
    } else {
        assert(with_uid(items, x.uid) =~= items);
    }
}

/// Putting messages in order loses none and adds none.
pub proof fn law_listing_keeps_every_message(sorted: Seq<Summary>, items: Seq<Summary>)
    requires
        newest_first(sorted, items),
    ensures
        sorted.to_multiset() == items.to_multiset(),
        sorted.len() == items.len(),
{
    broadcast use vstd::seq_lib::group_to_multiset_ensures;

    assert forall|x: Summary|
        sorted.to_multiset().count(x) == #[trigger] items.to_multiset().count(x) by {
        lemma_count_with_uid(sorted, x);
        lemma_count_with_uid(items, x);
        assert(with_uid(sorted, x.uid) == with_uid(items, x.uid));
    }
    assert(sorted.to_multiset() =~= items.to_multiset());
    assert(sorted.to_multiset().len() == sorted.len());
    assert(items.to_multiset().len() == items.len());
}

/// What the server sent is taken as it is: as many messages, in order, each with
/// its UID and its bytes.
pub proof fn law_replies_are_taken_whole(fetched: Seq<Fetched>, i: int)
    requires
        0 <= i < fetched.len(),
    ensures
        replies(fetched).len() == fetched.len(),
        replies(fetched)[i].uid == fetched[i].uid,
        match fetched[i].data {
            Some(bytes) => replies(fetched)[i].data == Some(bytes@),
            None => replies(fetched)[i].data is None,
        },
{
}

/// Before anything was found, a listing searches for everything, and a search for
/// the query itself: between quotes stand exactly as many characters as the query
/// has, each of them its own, but for a double quote, for which there is a single
/// one.
pub proof fn law_search_asks_for_the_query(
    step: MailboxStep<Listing>,
    folder: Seq<char>,
    query: Option<Seq<char>>,
    limit: u32,
    fetched: Option<Seq<Reply>>,
)
    requires
        is_listing_step(step, folder, query, limit, None, fetched),
    ensures
        step is Search,
        query is None ==> (step matches MailboxStep::Search(command) && command@ == "ALL"@),
        query matches Some(q) ==> (step matches MailboxStep::Search(command) && {
            &&& command@.len() == q.len() + 7
            &&& command@.take(6) == "TEXT \""@
            &&& command@.last() == '"'
            &&& forall|k: int|
                0 <= k < q.len() ==> (#[trigger] q[k] == '"' ==> command@[k + 6] == '\'') && (q[k]
                    != '"' ==> command@[k + 6] == q[k])
        }),
{
    if let Some(q) = query {
        reveal_strlit("TEXT \"");
        reveal_strlit("\"");
        reveal_strlit("'");
        assert("\""@ =~= seq!['"']);
        assert("'"@ =~= seq!['\'']);
        text::law_replacing_one_character(q, '"', '\'');
        let kept = replaced(q, "\""@, "'"@);
        let command = search_command(query);
        assert(command.take(6) =~= "TEXT \""@);
        assert forall|k: int| 0 <= k < q.len() implies (#[trigger] q[k] == '"' ==> command[k + 6]
            == '\'') && (q[k] != '"' ==> command[k + 6] == q[k]) by {
            assert(command[k + 6] == kept[k]);
        }
    }
}

/// A listing asks for as many messages as were asked for, at least one and at most
/// fifty.
pub proof fn law_page_is_what_was_asked_for(limit: u32)
    ensures
        limit == 0 ==> page_size(limit) == 1,
        1 <= limit <= 50 ==> page_size(limit) == limit,
        limit > 50 ==> page_size(limit) == 50,
{
}

/// What was found is asked for by its headers alone: with the highest UIDs, from
/// the highest down, as many as were asked for or all of them, none left out that
/// is higher than one that is taken, and each UID written out, with commas between
/// them.
pub proof fn law_the_newest_are_fetched(
    step: MailboxStep<Listing>,
    folder: Seq<char>,
    query: Option<Seq<char>>,
    limit: u32,
    uids: Seq<u32>,
)
    requires
        is_listing_step(step, folder, query, limit, Some(uids), None),
        uids.len() > 0,
    ensures
        step matches MailboxStep::Fetch { uids: set, items } && items@ == "RFC822.HEADER"@
            && exists|picked: Seq<u32>, rest: Seq<u32>|
            {
                &&& #[trigger] (picked + rest).to_multiset() == uids.to_multiset()
                &&& picked.len() == if uids.len() <= page_size(limit) {
                    uids.len()
                } else {
                    page_size(limit)
                }
                &&& forall|i: int, j: int| 0 <= i <= j < picked.len() ==> picked[i] >= picked[j]
                &&& forall|i: int, j: int|
                    0 <= i < picked.len() && 0 <= j < rest.len() ==> #[trigger] picked[i]
                        >= #[trigger] rest[j]
                &&& text::pieces(set@, ',').len() == picked.len()
                &&& forall|i: int|
                    0 <= i < picked.len() ==> #[trigger] text::pieces(set@, ',')[i] == decimal(
                        picked[i] as nat,
                    )
            },
{
    let sorted = ascending(uids);
    let down = sorted.reverse();
    let picked = newest(uids, page_size(limit));
    let n = picked.len() as int;
    let rest = down.skip(n);
    law_listing_asks_for_the_newest(uids, limit);
    lemma_ascending_len(uids);
    assert(picked =~= down.take(n));
    assert(picked + rest =~= down);
    sorted.lemma_reverse_to_multiset();
    assert forall|i: int, j: int| 0 <= i < picked.len() && 0 <= j < rest.len() implies
        #[trigger] picked[i] >= #[trigger] rest[j] by {
        assert(rest[j] == down[n + j]);
        assert(down[n + j] == sorted[sorted.len() - 1 - n - j]);
    }
    let written = picked.map_values(|u: u32| decimal(u as nat));
    reveal_strlit(",");
    assert(","@ =~= seq![',']);
    assert forall|i: int| 0 <= i < written.len() implies !(#[trigger] written[i]).contains(',') by {
        text::law_numbers_round_trip(picked[i] as nat, u32::MAX as nat);
        if written[i].contains(',') {
            let k = choose|k: int| 0 <= k < written[i].len() && written[i][k] == ',';
            assert(text::is_digit(written[i][k]));
        }
    }
    text::lemma_joined_pieces(written, ',');
    assert((picked + rest).to_multiset() == uids.to_multiset());
}

/// The messages that are listed are those that came with a header, in order: those
/// of the first replies and then those of the others. A reply without a UID counts
/// as number zero.
pub proof fn law_every_header_is_summarized(a: Seq<Reply>, b: Seq<Reply>, one: Reply)
    ensures
        summaries(a + b) == summaries(a) + summaries(b),
        one.data is None ==> summaries(seq![one]) == Seq::<Summary>::empty(),
        one.data matches Some(header) ==> summaries(seq![one]) == seq![
            summary(
                if one.uid is Some {
                    one.uid->0
                } else {
                    0
                },
                parsed(header),
            ),
        ],
    decreases b.len(),
{
    assert(seq![one].drop_last() =~= seq![]);
    assert(seq![one].last() == one);
    assert(summaries(seq![]) =~= seq![]);
    assert(summaries(seq![one].drop_last()) =~= seq![]);
    if let Some(header) = one.data {
        let uid: u32 = if one.uid is Some {
            one.uid->0
        } else {
            0
        };
        assert(summaries(seq![one]) == summaries(seq![one].drop_last()).push(
            summary(uid, parsed(header)),
        ));
        assert(summaries(seq![one]) =~= seq![summary(uid, parsed(header))]);
    } else {
        assert(summaries(seq![one]) == summaries(seq![one].drop_last()));
    }
    if b.len() == 0 {
        assert(a + b =~= a);
        assert(summaries(a) + summaries(b) =~= summaries(a));
    } else {
        law_every_header_is_summarized(a, b.drop_last(), one);
        assert((a + b).drop_last() =~= a + b.drop_last());
        assert((a + b).last() == b.last());
        assert(summaries(a + b) =~= summaries(a) + summaries(b));
    }
}

/// Once the headers are there, the listing holds every message that came with one,
/// with the highest UID first and those of the same UID in the order in which they
/// came; it says which folder and query it is for, and how many were found in all.
pub proof fn law_listing_holds_what_was_fetched(
    listing: Listing,
    folder: Seq<char>,
    query: Option<Seq<char>>,
    limit: u32,
    uids: Seq<u32>,
    messages: Seq<Reply>,
    uid: u32,
)
    requires
        is_listing_step(
            MailboxStep::Done(listing),
            folder,
            query,
            limit,
            Some(uids),
            Some(messages),
        ),
    ensures
        listing.folder@ == folder,
        match listing.query {
            Some(q) => query == Some(q@),
            None => query is None,
        },
        listing.total == uids.len(),
        uids.len() == 0 ==> listing.emails@.len() == 0,
        uids.len() > 0 ==> {
            let shown = summary_views(listing.emails@);
            let all = summaries(messages);
            &&& shown.len() == all.len() == listing.emails@.len()
            &&& shown.to_multiset() == all.to_multiset()
            &&& forall|i: int, j: int|
                0 <= i <= j < listing.emails@.len() ==> listing.emails@[i].uid
                    >= listing.emails@[j].uid
            &&& shown.filter(|s: Summary| s.uid == uid) == all.filter(|s: Summary| s.uid == uid)
        },
{
    let shown = summary_views(listing.emails@);
    let all = if uids.len() == 0 {
        seq![]
    } else {
        summaries(messages)
    };
    assert(newest_first(shown, all));
    law_listing_keeps_every_message(shown, all);
    assert(shown.len() == listing.emails@.len());
    assert(with_uid(shown, uid) == with_uid(all, uid));
    assert forall|i: int, j: int| 0 <= i <= j < listing.emails@.len() implies listing.emails@[i].uid
        >= listing.emails@[j].uid by {
        assert(shown[i].uid == listing.emails@[i].uid);
        assert(shown[j].uid == listing.emails@[j].uid);
        assert(shown[i].uid >= shown[j].uid);
    }
}

/// A listing shows of each message its UID, sender, subject and date as they are.
pub proof fn law_summaries_are_shown_whole(emails: Seq<EmailSummary>, i: int)
    requires
        0 <= i < emails.len(),
    ensures
        summary_views(emails).len() == emails.len(),
        summary_views(emails)[i].uid == emails[i].uid,
        summary_views(emails)[i].from == emails[i].from@,
        summary_views(emails)[i].subject == emails[i].subject@,
        summary_views(emails)[i].date == emails[i].date@,
{
}

/// Where the search found nothing, nothing is fetched.
pub proof fn law_nothing_found_ends_the_listing(
    step: MailboxStep<Listing>,
    folder: Seq<char>,
    query: Option<Seq<char>>,
    limit: u32,
    fetched: Option<Seq<Reply>>,
)
    requires
        is_listing_step(step, folder, query, limit, Some(Seq::<u32>::empty()), fetched),
    ensures
        step matches MailboxStep::Done(listing) && listing.total == 0 && listing.emails@.len() == 0
            && listing.folder@ == folder,
{
    if let MailboxStep::Done(listing) = step {
        let shown = summary_views(listing.emails@);
        law_listing_keeps_every_message(shown, seq![]);
        assert(shown.len() == listing.emails@.len());
    }
}

/// A message is asked for by its own UID alone.
pub proof fn law_one_message_is_asked_for<T>(step: MailboxStep<T>, uid: u32, items: Seq<char>)
    requires
        asks_for(step, uid, items),
    ensures
        step matches MailboxStep::Fetch { uids, items: asked } && uids@ == decimal(uid as nat)
            && asked@ == items,
{
}

/// Reading a message shows what the server sent of it: its headers and its text,
/// under the UID that the server gave it, or else the one asked for. It fails
/// exactly if the server sent none, or one without content, and says which.
pub proof fn law_reading_shows_the_message(
    r: Result<ReadEmail, String>,
    folder: Seq<char>,
    uid: u32,
    messages: Seq<Fetched>,
)
    requires
        is_read(r, folder, uid, replies(messages)),
    ensures
        messages.len() == 0 ==> (r matches Err(e) && e@ == "message UID "@ + decimal(uid as nat)
            + " not found in "@ + folder),
        messages.len() > 0 ==> match messages[0].data {
            None => r matches Err(e) && e@ == "empty body"@,
            Some(raw) => r matches Ok(email) && {
                &&& email.folder@ == folder
                &&& messages[0].uid matches Some(sent) ==> email.uid == sent
                &&& messages[0].uid is None ==> email.uid == uid
                &&& match parsed(raw@) {
                    Ok(part) => {
                        let text = email::body_text(part);
                        &&& email.headers@ == shown(Ok(part)).0
                        &&& email.body@.len() == if text.len() <= 8000 {
                            text.len()
                        } else {
                            8000
                        }
                        &&& forall|k: int|
                            0 <= k < email.body@.len() ==> #[trigger] email.body@[k] == text[k]
                    },
                    Err(e) => email.headers@.len() == 0 && email.body@ == "(parse error: "@ + e
                        + ")"@,
                }
            },
        },
{
    if messages.len() > 0 {
        assert(replies(messages)[0] == messages[0]@);
    }
}

/// Listing the attachments of a message lists those of what the server sent, one
/// for one, with the number, name, type and size of each. It fails exactly if the
/// server sent none, or one without content, or what it sent cannot be parsed, and
/// says which.
pub proof fn law_listing_attachments_lists_them(
    r: Result<AttachmentList, String>,
    folder: Seq<char>,
    uid: u32,
    messages: Seq<Fetched>,
)
    requires
        is_attachment_list(r, folder, uid, replies(messages)),
    ensures
        messages.len() == 0 ==> (r matches Err(e) && e@ == "message UID "@ + decimal(uid as nat)
            + " not found in "@ + folder),
        messages.len() > 0 ==> match messages[0].data {
            None => r matches Err(e) && e@ == "empty body"@,
            Some(raw) => match parsed(raw@) {
                Err(why) => r matches Err(e) && e@ == why,
                Ok(part) => r matches Ok(list) && {
                    let own = attachments(part);
                    &&& list.folder@ == folder
                    &&& list.uid == uid
                    &&& list.attachments@.len() == own.len()
                    &&& forall|i: int|
                        0 <= i < own.len() && i <= u32::MAX ==> {
                            let info = #[trigger] list.attachments@[i];
                            let name = attachment::filename_of(own[i]);
                            &&& info.index == i
                            &&& info.mime@ == own[i].mimetype
                            &&& name.len() > 0 ==> info.filename@ == name
                            &&& name.len() == 0 ==> info.filename@ == "attachment-"@ + decimal(
                                i as nat,
                            ) + ".bin"@
                            &&& own[i].content matches Ok(bytes) ==> info.size == bytes.len()
                            &&& own[i].content is Err ==> info.size == 0
                        }
                },
            },
        },
{
    if messages.len() > 0 {
        assert(replies(messages)[0] == messages[0]@);
        if let Some(raw) = messages[0].data {
            if let Ok(part) = parsed(raw@) {
                if let Ok(list) = r {
                    let own = attachments(part);
                    let all = listing(own, 0);
                    assert(info_views(list.attachments@).len() == list.attachments@.len());
                    assert forall|i: int| 0 <= i < own.len() && i <= u32::MAX implies {
                        let info = #[trigger] list.attachments@[i];
                        let name = attachment::filename_of(own[i]);
                        &&& info.index == i
                        &&& info.mime@ == own[i].mimetype
                        &&& name.len() > 0 ==> info.filename@ == name
                        &&& name.len() == 0 ==> info.filename@ == "attachment-"@ + decimal(i as nat)
                            + ".bin"@
                        &&& own[i].content matches Ok(bytes) ==> info.size == bytes.len()
                        &&& own[i].content is Err ==> info.size == 0
                    } by {
                        attachment::law_listing_says_what_is_attached(part, i);
                        assert(info_views(list.attachments@)[i] == list.attachments@[i]@);
                        assert(list.attachments@[i]@ == all[i]);
                    }
                }
            }
        }
    }
}

/// Downloading an attachment gives the bytes that it decodes to, every one of them
/// and in order, and saves them in the directory that was asked for, under a name
/// made of the numbers and of the attachment's own name made safe.
pub proof fn law_downloading_gives_the_bytes(
    r: Result<Download, String>,
    folder: Seq<char>,
    uid: u32,
    index: u32,
    out_dir: Seq<char>,
    limit: nat,
    messages: Seq<Fetched>,
)
    requires
        is_download(r, folder, uid, index, out_dir, limit, replies(messages)),
    ensures
        messages.len() == 0 ==> (r matches Err(e) && e@ == "message UID "@ + decimal(uid as nat)
            + " not found in "@ + folder),
        messages.len() > 0 ==> match messages[0].data {
            None => r matches Err(e) && e@ == "empty body"@,
            Some(raw) => {
                &&& r is Ok <==> downloaded(parsed(raw@), index, limit) is Ok
                &&& r matches Err(e) ==> downloaded(parsed(raw@), index, limit)->Err_0 == e@
                &&& r matches Ok(file) ==> parsed(raw@) is Ok && {
                    let own = attachments(parsed(raw@)->Ok_0);
                    let part = own[index as int];
                    let name = attachment::filename_of(part);
                    &&& index < own.len()
                    &&& part.content matches Ok(content) && file.bytes@.len() == content.len()
                        && file.size == content.len() && forall|k: int|
                        0 <= k < content.len() ==> #[trigger] file.bytes@[k] == content[k]
                    &&& file.folder@ == folder
                    &&& file.uid == uid
                    &&& file.mime@ == part.mimetype
                    &&& name.len() > 0 ==> file.filename@ == name
                    &&& name.len() == 0 ==> file.filename@ == "attachment-"@ + decimal(index as nat)
                        + ".bin"@
                    &&& file.out_dir@ == out_dir
                    &&& file.path@ == saved_path(out_dir, uid, index, file.filename@)
                }
            },
        },
{
    if messages.len() > 0 {
        assert(replies(messages)[0] == messages[0]@);
        if let Some(raw) = messages[0].data {
            if let Ok(part) = parsed(raw@) {
                if downloaded(Ok(part), index, limit) is Ok {
                    attachment::law_download_is_byte_for_byte(part, index, limit);
                    attachment::law_download_matches_listing(part, index, limit);
                    attachment::law_listing_says_what_is_attached(part, index as int);
                }
            }
        }
    }
}

/// A reply goes by the first `Message-ID`, `From` and `Subject` header of what the
/// server sent, or by nothing where there is none. Finding them fails exactly if
/// the server sent none, or one without content, or what it sent cannot be parsed,
/// and says which.
pub proof fn law_thread_is_that_of_the_message(
    r: Result<ThreadHeaders, String>,
    uid: u32,
    messages: Seq<Fetched>,
)
    requires
        is_thread(r, uid, replies(messages)),
    ensures
        messages.len() == 0 ==> (r matches Err(e) && e@ == "message UID "@ + decimal(uid as nat)
            + " not found"@),
        messages.len() > 0 ==> match messages[0].data {
            None => r matches Err(e) && e@ == "empty header"@,
            Some(raw) => match parsed_headers(raw@) {
                Err(why) => r matches Err(e) && e@ == why,
                Ok(headers) => r matches Ok(thread) && thread.message_id@ == header_or_empty(
                    headers,
                    "Message-ID"@,
                ) && thread.from@ == header_or_empty(headers, "From"@) && thread.subject@
                    == header_or_empty(headers, "Subject"@),
            },
        },
{
    if messages.len() > 0 {
        assert(replies(messages)[0] == messages[0]@);
    }
}

/// What has been found and fetched so far is taken as it is.
pub proof fn law_what_is_known_is_taken_as_it_is(
    found: Option<Vec<u32>>,
    fetched: Option<Vec<Fetched>>,
)
    ensures
        match found {
            Some(uids) => found_uids(found) == Some(uids@),
            None => found_uids(found) is None,
        },
        match fetched {
            Some(messages) => fetched_replies(fetched) == Some(replies(messages@)),
            None => fetched_replies(fetched) is None,
        },
{
}

/// A search asks for its own query, a listing for everything, and both go on as a
/// listing does.
pub proof fn law_lists_and_searches_are_listings(
    folder: &str,
    query: &str,
    limit: u32,
    found: &Option<Vec<u32>>,
    fetched: &Option<Vec<Fetched>>,
    listed: MailboxStep<Listing>,
    searched: MailboxStep<Listing>,
)
    requires
        call_ensures(do_list, (folder, limit, found, fetched), listed),
        call_ensures(do_search, (folder, query, limit, found, fetched), searched),
    ensures
        is_listing_step(
            listed,
            folder@,
            None,
            limit,
            found_uids(*found),
            fetched_replies(*fetched),
        ),
        is_listing_step(
            searched,
            folder@,
            Some(query@),
            limit,
            found_uids(*found),
            fetched_replies(*fetched),
        ),
        *found is None ==> (listed matches MailboxStep::Search(command) && command@ == "ALL"@),
        *found is None ==> (searched matches MailboxStep::Search(command) && command@.len()
            == query@.len() + 7 && forall|k: int|
            0 <= k < query@.len() && #[trigger] query@[k] != '"' ==> command@[k + 6] == query@[k]),
        *found matches Some(uids) && uids@.len() > 0 && *fetched is None ==> listed is Fetch
            && searched is Fetch,
        *found matches Some(uids) && uids@.len() > 0 && *fetched is Some ==> listed is Done
            && searched is Done,
{
    if *found is None {
        law_search_asks_for_the_query(listed, folder@, None, limit, fetched_replies(*fetched));
        law_search_asks_for_the_query(
            searched,
            folder@,
            Some(query@),
            limit,
            fetched_replies(*fetched),
        );
    }
}

/// What is done with one message starts with asking for it, whole or by its headers
/// alone, and ends with what the server sent.
pub proof fn law_one_message_is_fetched_and_used(
    folder: &str,
    uid: u32,
    index: u32,
    out_dir: &str,
    limit: usize,
    fetched: &Option<Vec<Fetched>>,
    read: MailboxStep<Result<ReadEmail, String>>,
    listed: MailboxStep<Result<AttachmentList, String>>,
    saved: MailboxStep<Result<Download, String>>,
    thread: MailboxStep<Result<ThreadHeaders, String>>,
)
    requires
        call_ensures(do_read, (folder, uid, fetched), read),
        call_ensures(do_list_attachments, (folder, uid, fetched), listed),
        call_ensures(do_download_attachment, (folder, uid, index, out_dir, limit, fetched), saved),
        call_ensures(do_fetch_thread_headers, (uid, fetched), thread),
    ensures
        match *fetched {
            None => {
                &&& read matches MailboxStep::Fetch { uids, items } && uids@ == decimal(uid as nat)
                    && items@ == "RFC822"@
                &&& listed matches MailboxStep::Fetch { uids, items } && uids@ == decimal(
                    uid as nat,
                ) && items@ == "RFC822"@
                &&& saved matches MailboxStep::Fetch { uids, items } && uids@ == decimal(uid as nat)
                    && items@ == "RFC822"@
                &&& thread matches MailboxStep::Fetch { uids, items } && uids@ == decimal(
                    uid as nat,
                ) && items@ == "RFC822.HEADER"@
            },
            Some(messages) => {
                &&& read matches MailboxStep::Done(r) && is_read(
                    r,
                    folder@,
                    uid,
                    replies(messages@),
                )
                &&& listed matches MailboxStep::Done(r) && is_attachment_list(
                    r,
                    folder@,
                    uid,
                    replies(messages@),
                )
                &&& saved matches MailboxStep::Done(r) && is_download(
                    r,
                    folder@,
                    uid,
                    index,
                    out_dir@,
                    limit as nat,
                    replies(messages@),
                )
                &&& thread matches MailboxStep::Done(r) && is_thread(r, uid, replies(messages@))
            },
        },
{
}

}
