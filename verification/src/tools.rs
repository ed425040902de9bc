//! The tools that the server offers: what each is asked with, what it does by
//! default, and when it is refused.
use vstd::prelude::*;

use crate::config::{or_default, text_or, Resolved, ResolvedAccount};
use crate::mailbox::ThreadHeaders;
use crate::mime::text_of;
use crate::reply;
use crate::reply::{parsed_addresses, reply_mail};
use crate::send::{Mail, Outgoing};
use crate::text;
use crate::text::{decimal, trimmed, views};

verus! {

/// What `list_emails` is asked with.
#[derive(Debug)]
pub struct ListParams {
    pub folder: Option<String>,
    pub limit: Option<u32>,
}

/// What `search_emails` is asked with.
#[derive(Debug)]
pub struct SearchParams {
    pub query: String,
    pub folder: Option<String>,
    pub limit: Option<u32>,
}

/// What `read_email` is asked with.
#[derive(Debug)]
pub struct ReadParams {
    pub uid: u32,
    pub folder: Option<String>,
}

/// What `send_email` is asked with.
#[derive(Debug)]
pub struct SendParams {
    pub to: String,
    pub subject: String,
    pub body: String,
    pub attachments: Option<Vec<String>>,
}

/// What `reply_email` is asked with.
#[derive(Debug)]
pub struct ReplyParams {
    pub uid: u32,
    pub body: String,
    pub folder: Option<String>,
}

/// What `list_attachments` is asked with.
#[derive(Debug)]
pub struct ListAttachmentsParams {
    pub uid: u32,
    pub folder: Option<String>,
}

/// What `download_attachment` is asked with.
#[derive(Debug)]
pub struct DownloadAttachmentParams {
    pub uid: u32,
    pub index: u32,
    pub folder: Option<String>,
    pub out_dir: Option<String>,
}

/// Why a tool is refused.
#[derive(Debug)]
pub enum ToolError {
    /// It was asked with something it cannot be asked with.
    InvalidParams(String),
    /// It cannot do what it was asked.
    Internal(String),
}

/// A list of messages to make.
pub struct ListRequest {
    pub folder: String,
    pub limit: u32,
}

/// A search to make.
pub struct SearchRequest {
    pub folder: String,
    pub query: String,
    pub limit: u32,
}

/// A message in a folder.
pub struct MessageRequest {
    pub folder: String,
    pub uid: u32,
}

/// An attachment to save.
pub struct DownloadRequest {
    pub folder: String,
    pub uid: u32,
    pub index: u32,
    pub out_dir: String,
}

/// The folder that is meant: the one given, or else the inbox.
pub open spec fn folder_or_inbox(folder: Option<String>) -> Seq<char> {
    or_default(text_of(folder), "INBOX"@)
}

/// How many messages are meant: the number given, or else ten.
pub open spec fn limit_or_ten(limit: Option<u32>) -> u32 {
    match limit {
        Some(n) => n,
        None => 10,
    }
}

/// How many messages are meant.
fn limit_of(limit: Option<u32>) -> (r: u32)
    ensures
        r == limit_or_ten(limit),
{
    match limit {
        Some(n) => n,
        None => 10,
    }
}

/// The tools, for one account.
pub struct MailMcp {
    pub cfg: ResolvedAccount,
}

impl MailMcp {
    /// The tools for an account.
    pub fn new(cfg: ResolvedAccount) -> (r: Self)
        ensures
            r.cfg == cfg,
    {
        MailMcp { cfg }
    }

    /// Lists the newest messages of a folder.
    pub fn list_emails(&self, p: &ListParams) -> (r: ListRequest)
        ensures
            r.folder@ == folder_or_inbox(p.folder),
            r.limit == limit_or_ten(p.limit),
    {
        ListRequest { folder: text_or(&p.folder, "INBOX"), limit: limit_of(p.limit) }
    }

    /// Searches messages by free text. A blank query is refused.
    pub fn search_emails(&self, p: &SearchParams) -> (r: Result<SearchRequest, ToolError>)
        ensures
            if trimmed(p.query@).len() == 0 {
                r matches Err(ToolError::InvalidParams(e)) && e@ == "query must be non-empty"@
            } else {
                r matches Ok(request) && request.folder@ == folder_or_inbox(p.folder)
                    && request.query@ == p.query@ && request.limit == limit_or_ten(p.limit)
            },
    {
        if text::trim(p.query.as_str()).as_str().is_empty() {
            return Err(ToolError::InvalidParams("query must be non-empty".to_string()));
        }
        Ok(
            SearchRequest {
                folder: text_or(&p.folder, "INBOX"),
                query: p.query.clone(),
                limit: limit_of(p.limit),
            },
        )
    }

    /// Reads one message.
    pub fn read_email(&self, p: &ReadParams) -> (r: MessageRequest)
        ensures
            r.folder@ == folder_or_inbox(p.folder),
            r.uid == p.uid,
    {
        MessageRequest { folder: text_or(&p.folder, "INBOX"), uid: p.uid }
    }

    /// Sends a new message. It is refused unless outbound mail is enabled.
    pub fn send_email(&self, p: SendParams) -> (r: Result<Outgoing, ToolError>)
        ensures
            if !self.cfg.smtp_write_enabled {
                r matches Err(ToolError::Internal(e)) && e@
                    == "outbound mail is disabled; set MAIL_SMTP_WRITE_ENABLED=true to enable sending"@
            } else {
                r matches Ok(mail) && mail@ == (Mail {
                    to: p.to@,
                    subject: p.subject@,
                    body: p.body@,
                    in_reply_to: None,
                    attachments: match p.attachments {
                        Some(paths) => views(paths@),
                        None => seq![],
                    },
                })
            },
    {
        if !self.cfg.smtp_write_enabled {
            return Err(
                ToolError::Internal(
                    "outbound mail is disabled; set MAIL_SMTP_WRITE_ENABLED=true to enable sending".to_string(),
                ),
            );
        }
        let attachments = match p.attachments {
            Some(paths) => paths,
            None => Vec::new(),
        };
        let mail = Outgoing {
            to: p.to,
            subject: p.subject,
            body: p.body,
            in_reply_to: None,
            attachments,
        };
        assert(p.attachments is None ==> mail@.attachments =~= seq![]);
        Ok(mail)
    }

    /// Starts a reply: the headers of the message are needed. It is refused
    /// unless outbound mail is enabled.
    pub fn reply_email(&self, p: &ReplyParams) -> (r: Result<MessageRequest, ToolError>)
        ensures
            if !self.cfg.smtp_write_enabled {
                r matches Err(ToolError::Internal(e)) && e@
                    == "outbound mail is disabled; set MAIL_SMTP_WRITE_ENABLED=true to enable replies"@
            } else {
                r matches Ok(request) && request.folder@ == folder_or_inbox(p.folder)
                    && request.uid == p.uid
            },
    {
        if !self.cfg.smtp_write_enabled {
            return Err(
                ToolError::Internal(
                    "outbound mail is disabled; set MAIL_SMTP_WRITE_ENABLED=true to enable replies".to_string(),
                ),
            );
        }
        Ok(MessageRequest { folder: text_or(&p.folder, "INBOX"), uid: p.uid })
    }

    /// Goes on with a reply, once the headers of the message are known, or the
    /// reason why they are not.
    pub fn reply_to_thread(&self, p: &ReplyParams, thread: Result<ThreadHeaders, String>) -> (r:
        Result<Outgoing, ToolError>)
        ensures
            if !self.cfg.smtp_write_enabled {
                r matches Err(ToolError::Internal(e)) && e@
                    == "outbound mail is disabled; set MAIL_SMTP_WRITE_ENABLED=true to enable replies"@
            } else {
                match thread {
                    Err(e) => r matches Err(ToolError::Internal(f)) && f@ == e@,
                    Ok(thread) => match reply_mail(
                        thread.message_id@,
                        thread.from@,
                        thread.subject@,
                        p.body@,
                        parsed_addresses(thread.from@),
                    ) {
                        Err(e) => r matches Err(ToolError::Internal(f)) && f@ == e,
                        Ok(mail) => r matches Ok(outgoing) && outgoing@ == mail,
                    },
                }
            },
    {
        if let Err(e) = self.reply_email(p) {
            return Err(e);
        }
        let thread = match thread {
            Ok(thread) => thread,
            Err(e) => return Err(ToolError::Internal(e)),
        };
        match reply::reply(&thread, p.body.as_str()) {
            Ok(mail) => Ok(mail),
            Err(e) => Err(ToolError::Internal(e)),
        }
    }

    /// Lists the attachments of a message.
    pub fn list_attachments(&self, p: &ListAttachmentsParams) -> (r: MessageRequest)
        ensures
            r.folder@ == folder_or_inbox(p.folder),
            r.uid == p.uid,
    {
        MessageRequest { folder: text_or(&p.folder, "INBOX"), uid: p.uid }
    }

    /// Saves one attachment of a message.
    pub fn download_attachment(&self, p: &DownloadAttachmentParams) -> (r: DownloadRequest)
        ensures
            r.folder@ == folder_or_inbox(p.folder),
            r.uid == p.uid,
            r.index == p.index,
            r.out_dir@ == or_default(text_of(p.out_dir), "attachments"@),
    {
        DownloadRequest {
            folder: text_or(&p.folder, "INBOX"),
            uid: p.uid,
            index: p.index,
            out_dir: text_or(&p.out_dir, "attachments"),
        }
    }

    /// What is shown as the server starts.
    pub fn banner(&self) -> (r: String)
        ensures
            r@ == banner_text(self.cfg@),
    {
        let switch = if self.cfg.smtp_write_enabled {
            "enabled"
        } else {
            "disabled"
        };
        "mail_mcp: IMAP ".to_string().concat(self.cfg.imap_host.as_str()).concat(":").concat(
            text::show(self.cfg.imap_port as u64).as_str(),
        ).concat(" SMTP ").concat(self.cfg.smtp_host.as_str()).concat(":").concat(
            text::show(self.cfg.smtp_port as u64).as_str(),
        ).concat(" (outbound mail: ").concat(switch).concat(", attachment limit: ").concat(
            text::show(self.cfg.max_attachment_bytes as u64).as_str(),
        ).concat(" bytes)")
    }
}

/// What is shown as the server starts.
pub open spec fn banner_text(account: Resolved) -> Seq<char> {
    "mail_mcp: IMAP "@ + account.imap_host + ":"@ + decimal(account.imap_port as nat) + " SMTP "@
        + account.smtp_host + ":"@ + decimal(account.smtp_port as nat) + " (outbound mail: "@ + (
    if account.smtp_write_enabled {
        "enabled"@
    } else {
        "disabled"@
    }) + ", attachment limit: "@ + decimal(account.max_attachment_bytes as nat) + " bytes)"@
}

/// Where no folder is given the inbox is meant, and where no number is given ten
/// messages are; what is given is taken as it is.
pub proof fn law_tools_take_what_they_are_given(folder: String, limit: u32)
    ensures
        folder_or_inbox(Some(folder)) == folder@,
        folder_or_inbox(None) == "INBOX"@,
        limit_or_ten(Some(limit)) == limit,
        limit_or_ten(None) == 10,
{
}

/// What is shown as the server starts names both servers and their ports, says
/// whether outbound mail is enabled, and what attachments are limited to.
pub proof fn law_banner_says_what_is_set(account: ResolvedAccount)
    ensures
        ({
            let head = "mail_mcp: IMAP "@ + account.imap_host@ + ":"@ + decimal(
                account.imap_port as nat,
            ) + " SMTP "@ + account.smtp_host@ + ":"@ + decimal(account.smtp_port as nat);
            let tail = ", attachment limit: "@ + decimal(account.max_attachment_bytes as nat)
                + " bytes)"@;
            &&& account.smtp_write_enabled ==> banner_text(account@) == head
                + " (outbound mail: enabled"@ + tail
            &&& !account.smtp_write_enabled ==> banner_text(account@) == head
                + " (outbound mail: disabled"@ + tail
        }),
{
    reveal_strlit(" (outbound mail: enabled");
    reveal_strlit(" (outbound mail: disabled");
    reveal_strlit(" (outbound mail: ");
    reveal_strlit("enabled");
    reveal_strlit("disabled");
    let head = "mail_mcp: IMAP "@ + account.imap_host@ + ":"@ + decimal(account.imap_port as nat)
        + " SMTP "@ + account.smtp_host@ + ":"@ + decimal(account.smtp_port as nat);
    let tail = ", attachment limit: "@ + decimal(account.max_attachment_bytes as nat) + " bytes)"@;
    assert(" (outbound mail: "@ + "enabled"@ =~= " (outbound mail: enabled"@);
    assert(" (outbound mail: "@ + "disabled"@ =~= " (outbound mail: disabled"@);
    let switch = if account.smtp_write_enabled {
        "enabled"@
    } else {
        "disabled"@
    };
    assert(banner_text(account@) =~= head + (" (outbound mail: "@ + switch) + tail);
}

/// A mail is sent as it was asked for: to whom, about what, with its text and its
/// files, all of them and in order, and as no reply; it is refused exactly if
/// outbound mail is not enabled.
pub proof fn law_sending_takes_the_mail_as_it_is(
    server: &MailMcp,
    p: SendParams,
    r: Result<Outgoing, ToolError>,
)
    requires
        call_ensures(MailMcp::send_email, (server, p), r),
    ensures
        r is Ok <==> server.cfg.smtp_write_enabled,
        r matches Ok(mail) ==> {
            &&& mail.to@ == p.to@
            &&& mail.subject@ == p.subject@
            &&& mail.body@ == p.body@
            &&& mail.in_reply_to is None
            &&& p.attachments is None ==> mail.attachments@.len() == 0
            &&& p.attachments matches Some(paths) ==> mail.attachments@.len() == paths@.len()
                && forall|i: int|
                0 <= i < paths@.len() ==> (#[trigger] mail.attachments@[i])@ == paths@[i]@
        },
{
    if let Ok(mail) = r {
        assert(mail@.attachments.len() == mail.attachments@.len());
        assert forall|i: int| 0 <= i < mail.attachments@.len() implies mail@.attachments[i] == (
        #[trigger] mail.attachments@[i])@ by {}
        if let Some(paths) = p.attachments {
            assert forall|i: int| 0 <= i < paths@.len() implies (#[trigger] mail.attachments@[i])@
                == paths@[i]@ by {
                assert(views(paths@)[i] == paths@[i]@);
                assert(mail@.attachments[i] == mail.attachments@[i]@);
            }
        }
    }
}

/// What is asked of a tool reaches the mailbox as it is: the folder, or else the
/// inbox, the message, the attachment and the directory, or else `attachments`,
/// and how many messages, or else ten.
pub proof fn law_requests_are_what_was_asked(
    server: &MailMcp,
    list: &ListParams,
    listed: ListRequest,
    read: &ReadParams,
    message: MessageRequest,
    attached: &ListAttachmentsParams,
    whole: MessageRequest,
    download: &DownloadAttachmentParams,
    file: DownloadRequest,
)
    requires
        call_ensures(MailMcp::list_emails, (server, list), listed),
        call_ensures(MailMcp::read_email, (server, read), message),
        call_ensures(MailMcp::list_attachments, (server, attached), whole),
        call_ensures(MailMcp::download_attachment, (server, download), file),
    ensures
        match list.folder {
            Some(folder) => listed.folder@ == folder@,
            None => listed.folder@ == "INBOX"@,
        },
        match list.limit {
            Some(limit) => listed.limit == limit,
            None => listed.limit == 10,
        },
        message.uid == read.uid,
        match read.folder {
            Some(folder) => message.folder@ == folder@,
            None => message.folder@ == "INBOX"@,
        },
        whole.uid == attached.uid,
        match attached.folder {
            Some(folder) => whole.folder@ == folder@,
            None => whole.folder@ == "INBOX"@,
        },
        file.uid == download.uid,
        file.index == download.index,
        match download.folder {
            Some(folder) => file.folder@ == folder@,
            None => file.folder@ == "INBOX"@,
        },
        match download.out_dir {
            Some(dir) => file.out_dir@ == dir@,
            None => file.out_dir@ == "attachments"@,
        },
{
}

/// A search is made with the query as it was given; it is refused exactly if the
/// query is nothing but white space.
pub proof fn law_searching_takes_the_query_as_it_is(
    server: &MailMcp,
    p: &SearchParams,
    r: Result<SearchRequest, ToolError>,
)
    requires
        call_ensures(MailMcp::search_emails, (server, p), r),
    ensures
        r is Err <==> forall|i: int|
            0 <= i < p.query@.len() ==> text::white_space(#[trigger] p.query@[i]),
        r matches Err(e) ==> (e matches ToolError::InvalidParams(why) && why@
            == "query must be non-empty"@),
        r matches Ok(request) ==> {
            &&& request.query@ == p.query@
            &&& match p.folder {
                Some(folder) => request.folder@ == folder@,
                None => request.folder@ == "INBOX"@,
            }
            &&& match p.limit {
                Some(limit) => request.limit == limit,
                None => request.limit == 10,
            }
        },
{
    text::law_only_white_space_is_trimmed_away(p.query@);
}

/// A reply is to the message that was asked for, with the text that was written in
/// front of the note, and is refused exactly if outbound mail is not enabled, or the
/// headers of the message are not known, or they do not say whom it is from.
pub proof fn law_replying_takes_the_text_as_it_is(
    server: &MailMcp,
    p: &ReplyParams,
    asked: Result<MessageRequest, ToolError>,
    thread: Result<ThreadHeaders, String>,
    r: Result<Outgoing, ToolError>,
)
    requires
        call_ensures(MailMcp::reply_email, (server, p), asked),
        call_ensures(MailMcp::reply_to_thread, (server, p, thread), r),
    ensures
        asked is Ok <==> server.cfg.smtp_write_enabled,
        asked matches Ok(request) ==> request.uid == p.uid && (match p.folder {
            Some(folder) => request.folder@ == folder@,
            None => request.folder@ == "INBOX"@,
        }),
        r is Ok <==> server.cfg.smtp_write_enabled && (thread matches Ok(t) && t.from@.len() > 0),
        server.cfg.smtp_write_enabled ==> (thread matches Err(why) ==> (r matches Err(
            ToolError::Internal(e),
        ) && e@ == why@)),
        r matches Ok(mail) ==> {
            let t = thread->Ok_0;
            &&& mail.body@ == p.body@ + "\n\n--- On original message ("@ + t.message_id@
                + ") ---\n"@
            &&& mail.to@ == reply::recipient(t.from@, parsed_addresses(t.from@))
            &&& mail.subject@ == reply::reply_subject(t.subject@)
            &&& t.message_id@.len() > 0 ==> (mail.in_reply_to matches Some(id) && id@
                == t.message_id@)
            &&& t.message_id@.len() == 0 ==> mail.in_reply_to is None
            &&& mail.attachments@.len() == 0
        },
{
    if let Ok(t) = thread {
        if server.cfg.smtp_write_enabled {
            let same: Result<Outgoing, String> = match r {
                Ok(mail) => Ok(mail),
                Err(ToolError::Internal(e)) => Err(e),
                Err(ToolError::InvalidParams(e)) => Err(e),
            };
            reply::law_reply_is_what_was_written(same, t, p.body@, parsed_addresses(t.from@));
        }
    }
}

}
