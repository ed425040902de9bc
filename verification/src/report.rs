//! What the tools answer with: JSON objects, written out.
use vstd::prelude::*;

use crate::attachment::{info_views, Attached, AttachmentInfo};
use crate::email::{EmailSummary, Summary};
use crate::json;
use crate::json::{compact_text, json_of, jsons, no_members, pretty_text, Json};
use crate::mailbox::{summary_views, AttachmentList, Download, Listing, ReadEmail};
use crate::mime::text_of;
use crate::text::decimal;

verus! {

/// A number.
pub open spec fn number(n: nat) -> Json {
    Json::Number(decimal(n))
}

/// A message in a list.
pub open spec fn summary_json(email: Summary) -> Json {
    Json::Object(
        no_members().insert("uid"@, number(email.uid as nat)).insert(
            "from"@,
            Json::Text(email.from),
        ).insert("subject"@, Json::Text(email.subject)).insert("date"@, Json::Text(email.date)),
    )
}

/// An attachment in a list.
pub open spec fn attachment_json(info: Attached) -> Json {
    Json::Object(
        no_members().insert("index"@, number(info.index as nat)).insert(
            "filename"@,
            Json::Text(info.filename),
        ).insert("mime"@, Json::Text(info.mime)).insert("size"@, number(info.size)),
    )
}

/// A list of messages; where it was searched for, with the query.
pub open spec fn listing_json(
    folder: Seq<char>,
    query: Option<Seq<char>>,
    total: nat,
    emails: Seq<Summary>,
) -> Json {
    let members = no_members().insert("folder"@, Json::Text(folder));
    let members = match query {
        Some(query) => members.insert("query"@, Json::Text(query)),
        None => members,
    };
    Json::Object(
        members.insert("total"@, number(total)).insert(
            "emails"@,
            Json::List(emails.map_values(|e: Summary| summary_json(e))),
        ),
    )
}

/// A list of messages, written out: on one line where nothing was found.
pub open spec fn listing_text(listing: Listing) -> Seq<char> {
    let value = listing_json(
        listing.folder@,
        text_of(listing.query),
        listing.total as nat,
        summary_views(listing.emails@),
    );
    if listing.total == 0 {
        compact_text(value)
    } else {
        pretty_text(value)
    }
}

/// A message in a list.
fn summary_value(email: &EmailSummary) -> (r: serde_json::Value)
    ensures
        json_of(r) == summary_json(email@),
{
    let mut object = json::new_object();
    json::insert(&mut object, "uid", json::number_value(email.uid as u64));
    json::insert(&mut object, "from", json::text_value(email.from.as_str()));
    json::insert(&mut object, "subject", json::text_value(email.subject.as_str()));
    json::insert(&mut object, "date", json::text_value(email.date.as_str()));
    json::object_value(object)
}

/// An attachment in a list.
fn attachment_value(info: &AttachmentInfo) -> (r: serde_json::Value)
    ensures
        json_of(r) == attachment_json(info@),
{
    let mut object = json::new_object();
    json::insert(&mut object, "index", json::number_value(info.index as u64));
    json::insert(&mut object, "filename", json::text_value(info.filename.as_str()));
    json::insert(&mut object, "mime", json::text_value(info.mime.as_str()));
    json::insert(&mut object, "size", json::number_value(info.size as u64));
    json::object_value(object)
}

/// Writes a list of messages.
pub fn show_listing(listing: &Listing) -> (r: String)
    ensures
        r@ == listing_text(*listing),
{
    let ghost all = summary_views(listing.emails@).map_values(|e: Summary| summary_json(e));
    let mut emails: Vec<serde_json::Value> = Vec::new();
    let mut i: usize = 0;
    while i < listing.emails.len()
        invariant
            i <= listing.emails@.len() == all.len(),
            all == summary_views(listing.emails@).map_values(|e: Summary| summary_json(e)),
            jsons(emails@) =~= all.take(i as int),
        decreases listing.emails@.len() - i,
    {
        let value = summary_value(&listing.emails[i]);
        assert(all[i as int] == summary_json(listing.emails@[i as int]@));
        let ghost before = jsons(emails@);
        emails.push(value);
        assert(jsons(emails@) =~= before.push(json_of(value)));
        assert(all.take(i + 1) =~= all.take(i as int).push(all[i as int]));
        i += 1;
    }
    assert(all.take(all.len() as int) =~= all);
    let mut object = json::new_object();
    json::insert(&mut object, "folder", json::text_value(listing.folder.as_str()));
    if let Some(query) = &listing.query {
        json::insert(&mut object, "query", json::text_value(query.as_str()));
    }
    json::insert(&mut object, "total", json::number_value(listing.total as u64));
    json::insert(&mut object, "emails", json::list_value(emails));
    let value = json::object_value(object);
    if listing.total == 0 {
        json::write_compact(&value)
    } else {
        json::write_pretty(&value)
    }
}

/// A message that was read, written out.
pub open spec fn email_text(email: ReadEmail) -> Seq<char> {
    pretty_text(
        Json::Object(
            no_members().insert("folder"@, Json::Text(email.folder@)).insert(
                "uid"@,
                number(email.uid as nat),
            ).insert("headers"@, Json::Text(email.headers@)).insert(
                "body"@,
                Json::Text(email.body@),
            ),
        ),
    )
}

/// Writes a message that was read.
pub fn show_email(email: &ReadEmail) -> (r: String)
    ensures
        r@ == email_text(*email),
{
    let mut object = json::new_object();
    json::insert(&mut object, "folder", json::text_value(email.folder.as_str()));
    json::insert(&mut object, "uid", json::number_value(email.uid as u64));
    json::insert(&mut object, "headers", json::text_value(email.headers.as_str()));
    json::insert(&mut object, "body", json::text_value(email.body.as_str()));
    json::write_pretty(&json::object_value(object))
}

/// The attachments of a message, written out.
pub open spec fn attachments_text(list: AttachmentList) -> Seq<char> {
    pretty_text(
        Json::Object(
            no_members().insert("folder"@, Json::Text(list.folder@)).insert(
                "uid"@,
                number(list.uid as nat),
            ).insert(
                "attachments"@,
                Json::List(
                    info_views(list.attachments@).map_values(|a: Attached| attachment_json(a)),
                ),
            ),
        ),
    )
}

/// Writes the attachments of a message.
pub fn show_attachments(list: &AttachmentList) -> (r: String)
    ensures
        r@ == attachments_text(*list),
{
    let ghost all = info_views(list.attachments@).map_values(|a: Attached| attachment_json(a));
    let mut attachments: Vec<serde_json::Value> = Vec::new();
    let mut i: usize = 0;
    while i < list.attachments.len()
        invariant
            i <= list.attachments@.len() == all.len(),
            all == info_views(list.attachments@).map_values(|a: Attached| attachment_json(a)),
            jsons(attachments@) =~= all.take(i as int),
        decreases list.attachments@.len() - i,
    {
        let value = attachment_value(&list.attachments[i]);
        assert(all[i as int] == attachment_json(list.attachments@[i as int]@));
        let ghost before = jsons(attachments@);
        attachments.push(value);
        assert(jsons(attachments@) =~= before.push(json_of(value)));
        assert(all.take(i + 1) =~= all.take(i as int).push(all[i as int]));
        i += 1;
    }
    assert(all.take(all.len() as int) =~= all);
    let mut object = json::new_object();
    json::insert(&mut object, "folder", json::text_value(list.folder.as_str()));
    json::insert(&mut object, "uid", json::number_value(list.uid as u64));
    json::insert(&mut object, "attachments", json::list_value(attachments));
    json::write_pretty(&json::object_value(object))
}

/// An attachment that was saved, written out.
pub open spec fn download_text(file: Download) -> Seq<char> {
    pretty_text(
        Json::Object(
            no_members().insert("folder"@, Json::Text(file.folder@)).insert(
                "uid"@,
                number(file.uid as nat),
            ).insert("filename"@, Json::Text(file.filename@)).insert(
                "mime"@,
                Json::Text(file.mime@),
            ).insert("size"@, number(file.size as nat)).insert("path"@, Json::Text(file.path@)),
        ),
    )
}

/// Writes what is said of an attachment that was saved.
pub fn show_download(file: &Download) -> (r: String)
    ensures
        r@ == download_text(*file),
{
    let mut object = json::new_object();
    json::insert(&mut object, "folder", json::text_value(file.folder.as_str()));
    json::insert(&mut object, "uid", json::number_value(file.uid as u64));
    json::insert(&mut object, "filename", json::text_value(file.filename.as_str()));
    json::insert(&mut object, "mime", json::text_value(file.mime.as_str()));
    json::insert(&mut object, "size", json::number_value(file.size as u64));
    json::insert(&mut object, "path", json::text_value(file.path.as_str()));
    json::write_pretty(&json::object_value(object))
}

/// The names of members differ.
proof fn lemma_member_names()
    ensures
        "uid"@ != "from"@,
        "uid"@ != "subject"@,
        "uid"@ != "date"@,
        "from"@ != "subject"@,
        "from"@ != "date"@,
        "subject"@ != "date"@,
        "index"@ != "filename"@,
        "index"@ != "mime"@,
        "index"@ != "size"@,
        "filename"@ != "mime"@,
        "filename"@ != "size"@,
        "mime"@ != "size"@,
        "folder"@ != "query"@,
        "folder"@ != "total"@,
        "folder"@ != "emails"@,
        "query"@ != "total"@,
        "query"@ != "emails"@,
        "total"@ != "emails"@,
        "folder"@ != "uid"@,
        "folder"@ != "headers"@,
        "folder"@ != "body"@,
        "uid"@ != "headers"@,
        "uid"@ != "body"@,
        "headers"@ != "body"@,
        "folder"@ != "attachments"@,
        "uid"@ != "attachments"@,
        "folder"@ != "filename"@,
        "folder"@ != "mime"@,
        "folder"@ != "size"@,
        "folder"@ != "path"@,
        "uid"@ != "filename"@,
        "uid"@ != "mime"@,
        "uid"@ != "size"@,
        "uid"@ != "path"@,
        "filename"@ != "path"@,
        "mime"@ != "path"@,
        "size"@ != "path"@,
{
    reveal_strlit("uid");
    reveal_strlit("from");
    reveal_strlit("subject");
    reveal_strlit("date");
    reveal_strlit("index");
    reveal_strlit("filename");
    reveal_strlit("mime");
    reveal_strlit("size");
    reveal_strlit("folder");
    reveal_strlit("query");
    reveal_strlit("total");
    reveal_strlit("emails");
    reveal_strlit("headers");
    reveal_strlit("body");
    reveal_strlit("attachments");
    reveal_strlit("path");
    assert("uid"@.len() == 3 && "uid"@[0] == 'u');
    assert("from"@.len() == 4 && "from"@[0] == 'f');
    assert("subject"@.len() == 7 && "subject"@[0] == 's');
    assert("date"@.len() == 4 && "date"@[0] == 'd');
    assert("index"@.len() == 5 && "index"@[0] == 'i');
    assert("filename"@.len() == 8 && "filename"@[0] == 'f');
    assert("mime"@.len() == 4 && "mime"@[0] == 'm');
    assert("size"@.len() == 4 && "size"@[0] == 's');
    assert("folder"@.len() == 6 && "folder"@[0] == 'f');
    assert("query"@.len() == 5 && "query"@[0] == 'q');
    assert("total"@.len() == 5 && "total"@[0] == 't');
    assert("emails"@.len() == 6 && "emails"@[0] == 'e');
    assert("headers"@.len() == 7 && "headers"@[0] == 'h');
    assert("body"@.len() == 4 && "body"@[0] == 'b');
    assert("attachments"@.len() == 11 && "attachments"@[0] == 'a');
    assert("path"@.len() == 4 && "path"@[0] == 'p');
}

/// Whether an object says of a message in a list its UID, sender, subject and
/// date, and nothing else.
pub open spec fn tells_summary(object: Map<Seq<char>, Json>, email: EmailSummary) -> bool {
    &&& forall|key: Seq<char>| #[trigger]
        object.contains_key(key) <==> key == "uid"@ || key == "from"@ || key == "subject"@ || key
            == "date"@
    &&& object["uid"@] == Json::Number(decimal(email.uid as nat))
    &&& object["from"@] == Json::Text(email.from@)
    &&& object["subject"@] == Json::Text(email.subject@)
    &&& object["date"@] == Json::Text(email.date@)
}

/// Whether an object says of an attachment its number, name, type and size, and
/// nothing else.
pub open spec fn tells_attachment(object: Map<Seq<char>, Json>, info: AttachmentInfo) -> bool {
    &&& forall|key: Seq<char>| #[trigger]
        object.contains_key(key) <==> key == "index"@ || key == "filename"@ || key == "mime"@ || key
            == "size"@
    &&& object["index"@] == Json::Number(decimal(info.index as nat))
    &&& object["filename"@] == Json::Text(info.filename@)
    &&& object["mime"@] == Json::Text(info.mime@)
    &&& object["size"@] == Json::Number(decimal(info.size as nat))
}

/// A list of messages is answered with the folder, the query if there was one, how
/// many were found in all, and one object for each message, in order: on one line
/// where nothing was found, and else over several.
pub proof fn law_listing_answer_tells_all(
    listing: Listing,
    answer: Map<Seq<char>, Json>,
    emails: Seq<Json>,
)
    requires
        forall|key: Seq<char>| #[trigger]
            answer.contains_key(key) <==> key == "folder"@ || key == "total"@ || key == "emails"@
                || (key == "query"@ && listing.query is Some),
        answer["folder"@] == Json::Text(listing.folder@),
        listing.query matches Some(query) ==> answer["query"@] == Json::Text(query@),
        answer["total"@] == Json::Number(decimal(listing.total as nat)),
        answer["emails"@] == Json::List(emails),
        emails.len() == listing.emails@.len(),
        forall|i: int|
            0 <= i < emails.len() ==> (#[trigger] emails[i] matches Json::Object(object)
                && tells_summary(object, listing.emails@[i])),
    ensures
        listing.total == 0 ==> listing_text(listing) == compact_text(Json::Object(answer)),
        listing.total != 0 ==> listing_text(listing) == pretty_text(Json::Object(answer)),
{
    lemma_member_names();
    let shown = summary_views(listing.emails@);
    let list = shown.map_values(|e: Summary| summary_json(e));
    assert(list.len() == emails.len());
    assert forall|i: int| 0 <= i < emails.len() implies #[trigger] emails[i] == list[i] by {
        assert(shown[i] == listing.emails@[i]@);
        assert(list[i] == summary_json(shown[i]));
        assert(emails[i] matches Json::Object(object) && tells_summary(object, listing.emails@[i]));
        let object = emails[i]->Object_0;
        let whole = summary_json(shown[i])->Object_0;
        assert forall|key: Seq<char>| #[trigger] object.contains_key(key) implies object[key]
            == whole[key] by {}
        assert(object =~= whole);
    }
    assert(emails =~= list);
    let whole = listing_json(
        listing.folder@,
        text_of(listing.query),
        listing.total as nat,
        shown,
    )->Object_0;
    assert(answer =~= whole);
}

/// A message that was read is answered with its folder, UID, headers and body, and
/// nothing else.
pub proof fn law_read_answer_tells_all(email: ReadEmail, answer: Map<Seq<char>, Json>)
    requires
        forall|key: Seq<char>| #[trigger]
            answer.contains_key(key) <==> key == "folder"@ || key == "uid"@ || key == "headers"@
                || key == "body"@,
        answer["folder"@] == Json::Text(email.folder@),
        answer["uid"@] == Json::Number(decimal(email.uid as nat)),
        answer["headers"@] == Json::Text(email.headers@),
        answer["body"@] == Json::Text(email.body@),
    ensures
        email_text(email) == pretty_text(Json::Object(answer)),
{
    lemma_member_names();
    let whole = no_members().insert("folder"@, Json::Text(email.folder@)).insert(
        "uid"@,
        number(email.uid as nat),
    ).insert("headers"@, Json::Text(email.headers@)).insert("body"@, Json::Text(email.body@));
    assert(answer =~= whole);
}

/// The attachments of a message are answered with its folder, its UID and one
/// object for each attachment, in order.
pub proof fn law_attachments_answer_tells_all(
    list: AttachmentList,
    answer: Map<Seq<char>, Json>,
    infos: Seq<Json>,
)
    requires
        forall|key: Seq<char>| #[trigger]
            answer.contains_key(key) <==> key == "folder"@ || key == "uid"@ || key
                == "attachments"@,
        answer["folder"@] == Json::Text(list.folder@),
        answer["uid"@] == Json::Number(decimal(list.uid as nat)),
        answer["attachments"@] == Json::List(infos),
        infos.len() == list.attachments@.len(),
        forall|i: int|
            0 <= i < infos.len() ==> (#[trigger] infos[i] matches Json::Object(object)
                && tells_attachment(object, list.attachments@[i])),
    ensures
        attachments_text(list) == pretty_text(Json::Object(answer)),
{
    lemma_member_names();
    let shown = info_views(list.attachments@);
    let all = shown.map_values(|a: Attached| attachment_json(a));
    assert(all.len() == infos.len());
    assert forall|i: int| 0 <= i < infos.len() implies #[trigger] infos[i] == all[i] by {
        assert(shown[i] == list.attachments@[i]@);
        assert(all[i] == attachment_json(shown[i]));
        assert(infos[i] matches Json::Object(object) && tells_attachment(
            object,
            list.attachments@[i],
        ));
        let object = infos[i]->Object_0;
        let whole = attachment_json(shown[i])->Object_0;
        assert(object =~= whole);
    }
    assert(infos =~= all);
    let whole = no_members().insert("folder"@, Json::Text(list.folder@)).insert(
        "uid"@,
        number(list.uid as nat),
    ).insert("attachments"@, Json::List(all));
    assert(answer =~= whole);
}

/// An attachment that was saved is answered with its folder, the UID of its
/// message, its name, type and size, and where it is.
pub proof fn law_download_answer_tells_all(file: Download, answer: Map<Seq<char>, Json>)
    requires
        forall|key: Seq<char>| #[trigger]
            answer.contains_key(key) <==> key == "folder"@ || key == "uid"@ || key == "filename"@
                || key == "mime"@ || key == "size"@ || key == "path"@,
        answer["folder"@] == Json::Text(file.folder@),
        answer["uid"@] == Json::Number(decimal(file.uid as nat)),
        answer["filename"@] == Json::Text(file.filename@),
        answer["mime"@] == Json::Text(file.mime@),
        answer["size"@] == Json::Number(decimal(file.size as nat)),
        answer["path"@] == Json::Text(file.path@),
    ensures
        download_text(file) == pretty_text(Json::Object(answer)),
{
    lemma_member_names();
    let whole = no_members().insert("folder"@, Json::Text(file.folder@)).insert(
        "uid"@,
        number(file.uid as nat),
    ).insert("filename"@, Json::Text(file.filename@)).insert("mime"@, Json::Text(file.mime@)).insert(
        "size"@,
        number(file.size as nat),
    ).insert("path"@, Json::Text(file.path@));
    assert(answer =~= whole);
}

/// Each message and each attachment in an answer is an object that says all that
/// the listing shows of it.
pub proof fn law_entries_tell_all(email: EmailSummary, info: AttachmentInfo)
    ensures
        summary_json(email@) matches Json::Object(object) && tells_summary(object, email),
        attachment_json(info@) matches Json::Object(object) && tells_attachment(object, info),
{
    lemma_member_names();
}

/// What the tools answer with is the text of what they found.
pub proof fn law_answers_are_written_out(
    listing: &Listing,
    listed: String,
    email: &ReadEmail,
    read: String,
    list: &AttachmentList,
    attached: String,
    file: &Download,
    saved: String,
)
    requires
        call_ensures(show_listing, (listing,), listed),
        call_ensures(show_email, (email,), read),
        call_ensures(show_attachments, (list,), attached),
        call_ensures(show_download, (file,), saved),
    ensures
        listed@ == listing_text(*listing),
        read@ == email_text(*email),
        attached@ == attachments_text(*list),
        saved@ == download_text(*file),
{
}

}
