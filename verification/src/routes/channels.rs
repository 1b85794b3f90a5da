//! Channels, messages, polls, threads and forums: the checks made on
//! requests before they reach the store.
use vstd::prelude::*;
use crate::text::{ostr_view, ostring_view, strings_view};
use crate::text::{
    chars_of, parse_i64, parse_in_range, string_from_chars, trim, trim_spec, utf8_len,
    utf8_len_capped,
};
use crate::error::{ApiError, bad_request, is_bad_request};
use crate::routes::bots::dangerous_markup_spec;
use crate::json::{Json, get_spec, member, obj_push, object_keys, opt_as_str, text_or_null};
use crate::text::{i64_decimal, int_decimal};
use crate::trusted::{rfc3339_utc, rfc3339_utc_spec};
pub use crate::routes::bots::contains_dangerous_markup;

verus! {

/// Longest channel topic, in bytes (trimmed).
pub const MAX_CHANNEL_TOPIC_LEN: usize = 1024;

/// Most messages one bulk deletion may name.
pub const MAX_BULK_DELETE_REQUEST_IDS: usize = 500;

/// Longest poll question, in bytes.
pub const MAX_POLL_QUESTION_LEN: usize = 300;

/// Longest poll option, in bytes.
pub const MAX_POLL_OPTION_LEN: usize = 100;

/// Most options of a poll.
pub const MAX_POLL_OPTIONS: usize = 10;

/// Longest poll, in minutes (14 days).
pub const MAX_POLL_DURATION_MINUTES: i64 = 20160;

/// Longest message nonce, in bytes.
pub const MAX_MESSAGE_NONCE_LEN: usize = 64;

pub open spec fn i64_of(s: Seq<char>) -> Option<int> {
    parse_in_range(s, true, i64::MIN as int, i64::MAX as int)
}

/// Every text of the list is a decimal `i64`; the numbers in order.
pub open spec fn all_ids_parse(raw: Seq<Seq<char>>) -> bool {
    forall|i: int| 0 <= i < raw.len() ==> #[trigger] i64_of(raw[i]) is Some
}

/// Parses a list of ids given as text; `err` is the error for any that is
/// not a decimal `i64`.
fn parse_id_list(raw: &Vec<String>, err: &str) -> (r: Result<Vec<i64>, ApiError>)
    ensures
        match r {
            Ok(ids) => all_ids_parse(strings_view(raw@)) && ids@.len() == raw@.len() && forall|i: int|
                0 <= i < ids@.len() ==> i64_of(raw@[i]@) == Some(#[trigger] ids@[i] as int),
            Err(e) => !all_ids_parse(strings_view(raw@)) && is_bad_request(e, err@),
        },
{
    let mut out: Vec<i64> = Vec::new();
    let mut i: usize = 0;
    while i < raw.len()
        invariant
            i <= raw@.len(),
            out@.len() == i,
            forall|j: int| 0 <= j < i ==> i64_of(raw@[j]@) == Some(#[trigger] out@[j] as int),
        decreases raw.len() - i,
    {
        match parse_i64(&chars_of(raw[i].as_str())) {
            Some(n) => out.push(n),
            None => {
                assert(strings_view(raw@)[i as int] == raw@[i as int]@);
                assert(i64_of(strings_view(raw@)[i as int]) is None);
                return Err(bad_request(err));
            },
        }
        i = i + 1;
    }
    assert forall|j: int| 0 <= j < raw@.len() implies #[trigger] i64_of(strings_view(raw@)[j]) is Some by {
        assert(strings_view(raw@)[j] == raw@[j]@);
        assert(i64_of(raw@[j]@) == Some(out@[j] as int));
    }
    Ok(out)
}

/// The required roles of a channel, given as text.
pub fn parse_role_id_strings(raw_role_ids: &Vec<String>) -> (r: Result<Vec<i64>, ApiError>)
    ensures
        match r {
            Ok(ids) => all_ids_parse(strings_view(raw_role_ids@)) && ids@.len() == raw_role_ids@.len()
                && forall|i: int|
                0 <= i < ids@.len() ==> i64_of(raw_role_ids@[i]@) == Some(#[trigger] ids@[i] as int),
            Err(e) => !all_ids_parse(strings_view(raw_role_ids@)) && is_bad_request(
                e,
                "Invalid role id"@,
            ),
        },
{
    parse_id_list(raw_role_ids, "Invalid role id")
}

/// Every required role must be a role of the guild.
pub fn check_roles_belong_to_guild(role_ids: &Vec<i64>, guild_role_ids: &Vec<i64>) -> (r: Result<
    (),
    ApiError,
>)
    ensures
        r is Ok <==> forall|i: int| 0 <= i < role_ids@.len() ==> guild_role_ids@.contains(#[trigger] role_ids@[i]),
        r matches Err(e) ==> is_bad_request(e, "One or more required roles do not belong to this guild"@),
{
    let mut i: usize = 0;
    while i < role_ids.len()
        invariant
            i <= role_ids@.len(),
            forall|j: int| 0 <= j < i ==> guild_role_ids@.contains(#[trigger] role_ids@[j]),
        decreases role_ids.len() - i,
    {
        let mut found = false;
        let mut k: usize = 0;
        while k < guild_role_ids.len()
            invariant
                k <= guild_role_ids@.len(),
                i < role_ids@.len(),
                found ==> guild_role_ids@.contains(role_ids@[i as int]),
                !found ==> forall|t: int| 0 <= t < k ==> guild_role_ids@[t] != role_ids@[i as int],
            decreases guild_role_ids.len() - k,
        {
            if guild_role_ids[k] == role_ids[i] {
                assert(guild_role_ids@[k as int] == role_ids@[i as int]);
                found = true;
            }
            k = k + 1;
        }
        if !found {
            assert(!guild_role_ids@.contains(role_ids@[i as int]));
            return Err(bad_request("One or more required roles do not belong to this guild"));
        }
        i = i + 1;
    }
    Ok(())
}

/// Why a channel topic is refused, if it is.
pub open spec fn topic_error(topic: Option<Seq<char>>) -> Option<Seq<char>> {
    match topic {
        Some(t) => if utf8_len(trim_spec(t)) > 1024 {
            Some("topic is too long"@)
        } else if dangerous_markup_spec(t) {
            Some("topic contains unsafe markup"@)
        } else {
            None
        },
        None => None,
    }
}

pub fn validate_channel_topic(topic: Option<&str>) -> (r: Result<(), ApiError>)
    ensures
        match r {
            Ok(()) => topic_error(ostr_view(topic)) is None,
            Err(e) => topic_error(ostr_view(topic)) matches Some(m) && is_bad_request(e, m),
        },
{
    if let Some(t) = topic {
        if utf8_len_capped(&trim(&chars_of(t)), MAX_CHANNEL_TOPIC_LEN) > MAX_CHANNEL_TOPIC_LEN {
            return Err(bad_request("topic is too long"));
        }
        if contains_dangerous_markup(t) {
            return Err(bad_request("topic contains unsafe markup"));
        }
    }
    Ok(())
}

/// A bulk deletion names between 1 and 500 messages.
pub fn validate_bulk_delete_count(count: usize) -> (r: Result<(), ApiError>)
    ensures
        r is Ok <==> 1 <= count <= 500,
        r matches Err(e) ==> is_bad_request(
            e,
            if count == 0 {
                "message_ids must contain at least one message"@
            } else {
                "Too many message_ids in one request"@
            },
        ),
{
    if count == 0 {
        return Err(bad_request("message_ids must contain at least one message"));
    }
    if count > MAX_BULK_DELETE_REQUEST_IDS {
        return Err(bad_request("Too many message_ids in one request"));
    }
    Ok(())
}

/// The messages of a bulk deletion, given as text.
pub fn parse_message_ids(raw: &Vec<String>) -> (r: Result<Vec<i64>, ApiError>)
    ensures
        match r {
            Ok(ids) => all_ids_parse(strings_view(raw@)) && ids@.len() == raw@.len() && forall|i: int|
                0 <= i < ids@.len() ==> i64_of(raw@[i]@) == Some(#[trigger] ids@[i] as int),
            Err(e) => !all_ids_parse(strings_view(raw@)) && is_bad_request(e, "Invalid message ID"@),
        },
{
    parse_id_list(raw, "Invalid message ID")
}

// ---------------------------------------------------------------------------
// Messages
// ---------------------------------------------------------------------------

pub struct DmE2eePayloadRequest {
    pub version: u8,
    pub nonce: String,
    pub ciphertext: String,
    pub header: Option<String>,
}

pub struct SendMessageRequest {
    pub content: String,
    pub referenced_message_id: Option<String>,
    pub attachment_ids: Vec<String>,
    pub e2ee: Option<DmE2eePayloadRequest>,
    pub nonce: Option<String>,
}

pub struct EditMessageRequest {
    pub content: String,
    pub e2ee: Option<DmE2eePayloadRequest>,
}

/// The checks a new message passes before its channel is looked up: the
/// nonce (trimmed, absent when blank) is at most 64 bytes; a message has
/// content, attachments or an encrypted payload; plain content holds no
/// unsafe markup. The normalised nonce when they pass.
pub open spec fn send_message_spec(
    content: Seq<char>,
    attachment_count: nat,
    encrypted: bool,
    nonce: Option<Seq<char>>,
) -> Result<Option<Seq<char>>, Seq<char>> {
    let n = match nonce {
        Some(raw) => if trim_spec(raw).len() > 0 {
            Some(trim_spec(raw))
        } else {
            None
        },
        None => None,
    };
    if n matches Some(x) && utf8_len(x) > 64 {
        Err("Message nonce must be 1-64 characters"@)
    } else if trim_spec(content).len() == 0 && attachment_count == 0 && !encrypted {
        Err("Message must include content or attachments"@)
    } else if !encrypted && trim_spec(content).len() > 0 && dangerous_markup_spec(content) {
        Err("Message contains unsafe markup"@)
    } else {
        Ok(n)
    }
}

/// An instant as `(seconds, nanoseconds)` since the Unix epoch; ordered
/// lexicographically.
pub open spec fn instant_le(a: (i64, u32), b: (i64, u32)) -> bool {
    a.0 < b.0 || (a.0 == b.0 && a.1 <= b.1)
}

/// What a message may carry of an uploaded attachment: it must have been
/// uploaded by the sender, for this channel, and not have expired by `now`.
pub fn check_message_attachment(
    uploader_id: Option<i64>,
    upload_channel_id: Option<i64>,
    upload_expires_at: Option<(i64, u32)>,
    sender_id: i64,
    channel_id: i64,
    now: (i64, u32),
) -> (r: Result<(), ApiError>)
    ensures
        uploader_id != Some(sender_id) ==> (r matches Err(e) && e is Forbidden),
        uploader_id == Some(sender_id) && upload_channel_id != Some(channel_id) ==> (r matches Err(e)
            && is_bad_request(e, "Attachment was uploaded for a different channel"@)),
        uploader_id == Some(sender_id) && upload_channel_id == Some(channel_id) ==> (match upload_expires_at {
            Some(t) => if instant_le(t, now) {
                r matches Err(e) && is_bad_request(e, "Attachment upload has expired; re-upload the file"@)
            } else {
                r is Ok
            },
            None => r is Ok,
        }),
{
    let ours = match uploader_id {
        Some(u) => u == sender_id,
        None => false,
    };
    if !ours {
        return Err(ApiError::Forbidden);
    }
    let here = match upload_channel_id {
        Some(c) => c == channel_id,
        None => false,
    };
    if !here {
        return Err(bad_request("Attachment was uploaded for a different channel"));
    }
    if let Some(t) = upload_expires_at {
        if t.0 < now.0 || (t.0 == now.0 && t.1 <= now.1) {
            return Err(bad_request("Attachment upload has expired; re-upload the file"));
        }
    }
    Ok(())
}

/// Linking an attachment to a message: one already linked to this message
/// is skipped, one linked elsewhere is refused.
pub fn attachment_needs_link(linked_message_id: Option<i64>, message_id: i64) -> (r: Result<bool, ApiError>)
    ensures
        linked_message_id == Some(message_id) ==> r == Ok::<bool, ApiError>(false),
        linked_message_id is None ==> r == Ok::<bool, ApiError>(true),
        linked_message_id is Some && linked_message_id != Some(message_id) ==> (r matches Err(e)
            && is_bad_request(e, "Attachment is already linked"@)),
{
    match linked_message_id {
        Some(m) => if m == message_id {
            Ok(false)
        } else {
            Err(bad_request("Attachment is already linked"))
        },
        None => Ok(true),
    }
}

pub fn validate_send_message(body: &SendMessageRequest) -> (r: Result<Option<String>, ApiError>)
    ensures
        match r {
            Ok(n) => send_message_spec(
                body.content@,
                body.attachment_ids@.len(),
                body.e2ee is Some,
                ostring_view(body.nonce),
            ) == Ok::<Option<Seq<char>>, Seq<char>>(ostring_view(n)),
            Err(e) => send_message_spec(
                body.content@,
                body.attachment_ids@.len(),
                body.e2ee is Some,
                ostring_view(body.nonce),
            ) matches Err(m) && is_bad_request(e, m),
        },
{
    let nonce = match &body.nonce {
        Some(raw) => {
            let t = trim(&chars_of(raw.as_str()));
            if t.len() > 0 {
                Some(t)
            } else {
                None
            }
        },
        None => None,
    };
    if let Some(x) = &nonce {
        if utf8_len_capped(x, MAX_MESSAGE_NONCE_LEN) > MAX_MESSAGE_NONCE_LEN {
            return Err(bad_request("Message nonce must be 1-64 characters"));
        }
    }
    let blank = trim(&chars_of(body.content.as_str())).len() == 0;
    if blank && body.attachment_ids.len() == 0 && body.e2ee.is_none() {
        return Err(bad_request("Message must include content or attachments"));
    }
    if body.e2ee.is_none() && !blank && contains_dangerous_markup(body.content.as_str()) {
        return Err(bad_request("Message contains unsafe markup"));
    }
    match nonce {
        Some(x) => Ok(Some(string_from_chars(&x))),
        None => Ok(None),
    }
}

/// Plain (not encrypted) edited content must hold no unsafe markup.
pub fn validate_edit_message_markup(body: &EditMessageRequest) -> (r: Result<(), ApiError>)
    ensures
        r is Ok <==> !(body.e2ee is None && dangerous_markup_spec(body.content@)),
        r matches Err(e) ==> is_bad_request(e, "Message contains unsafe markup"@),
{
    if body.e2ee.is_none() && contains_dangerous_markup(body.content.as_str()) {
        return Err(bad_request("Message contains unsafe markup"));
    }
    Ok(())
}

// ---------------------------------------------------------------------------
// Polls
// ---------------------------------------------------------------------------

pub struct CreatePollOptionRequest {
    pub text: String,
    pub emoji: Option<String>,
}

pub struct CreatePollRequest {
    pub question: String,
    pub options: Vec<CreatePollOptionRequest>,
    pub allow_multiselect: Option<bool>,
    pub expires_in_minutes: Option<i64>,
}

/// A name of 1 to `max` bytes once trimmed.
pub open spec fn name_fits(t: Seq<char>, max: nat) -> bool {
    trim_spec(t).len() > 0 && utf8_len(trim_spec(t)) <= max
}

/// The first poll option refused, and why.
pub open spec fn poll_options_error(options: Seq<Seq<char>>) -> Option<Seq<char>>
    decreases options.len(),
{
    if options.len() == 0 {
        None
    } else if !name_fits(options[0], 100) {
        Some("Poll options must be between 1 and 100 characters"@)
    } else if dangerous_markup_spec(trim_spec(options[0])) {
        Some("Poll options contain unsafe markup"@)
    } else {
        poll_options_error(options.drop_first())
    }
}

/// Why a poll is refused, if it is: its question, its number of options,
/// each option, its duration, checked in that order.
pub open spec fn poll_error(question: Seq<char>, options: Seq<Seq<char>>, expires_in_minutes: Option<i64>) -> Option<
    Seq<char>,
> {
    if !name_fits(question, 300) {
        Some("Poll question must be between 1 and 300 characters"@)
    } else if dangerous_markup_spec(trim_spec(question)) {
        Some("Poll question contains unsafe markup"@)
    } else if options.len() < 2 || options.len() > 10 {
        Some("Polls must include between 2 and 10 options"@)
    } else if poll_options_error(options) is Some {
        poll_options_error(options)
    } else if expires_in_minutes matches Some(m) && !(1 <= m <= 20160) {
        Some("Poll duration must be between 1 minute and 14 days"@)
    } else {
        None
    }
}

pub open spec fn option_texts(options: Seq<CreatePollOptionRequest>) -> Seq<Seq<char>> {
    options.map_values(|o: CreatePollOptionRequest| o.text@)
}

fn check_name(raw: &str, max: usize) -> (r: Option<String>)
    requires
        max < usize::MAX,
    ensures
        match r {
            Some(t) => name_fits(raw@, max as nat) && t@ == trim_spec(raw@),
            None => !name_fits(raw@, max as nat),
        },
{
    let t = trim(&chars_of(raw));
    if t.len() == 0 || utf8_len_capped(&t, max) > max {
        return None;
    }
    Some(string_from_chars(&t))
}

/// Checks a poll; its question and option texts, trimmed, when it passes.
pub fn validate_poll(body: &CreatePollRequest) -> (r: Result<(String, Vec<String>), ApiError>)
    ensures
        match r {
            Ok((q, opts)) => poll_error(body.question@, option_texts(body.options@), body.expires_in_minutes)
                is None && q@ == trim_spec(body.question@) && opts@.len() == body.options@.len()
                && forall|i: int|
                0 <= i < opts@.len() ==> (#[trigger] opts@[i])@ == trim_spec(body.options@[i].text@),
            Err(e) => poll_error(body.question@, option_texts(body.options@), body.expires_in_minutes)
                matches Some(m) && is_bad_request(e, m),
        },
{
    let q = match check_name(body.question.as_str(), MAX_POLL_QUESTION_LEN) {
        Some(q) => q,
        None => return Err(bad_request("Poll question must be between 1 and 300 characters")),
    };
    if contains_dangerous_markup(q.as_str()) {
        return Err(bad_request("Poll question contains unsafe markup"));
    }
    if body.options.len() < 2 || body.options.len() > MAX_POLL_OPTIONS {
        return Err(bad_request("Polls must include between 2 and 10 options"));
    }
    let ghost texts = option_texts(body.options@);
    let mut opts: Vec<String> = Vec::new();
    let mut i: usize = 0;
    assert(texts.skip(0) == texts);
    while i < body.options.len()
        invariant
            i <= body.options@.len(),
            texts == option_texts(body.options@),
            name_fits(body.question@, 300),
            !dangerous_markup_spec(trim_spec(body.question@)),
            2 <= body.options@.len() <= 10,
            q@ == trim_spec(body.question@),
            poll_options_error(texts) == poll_options_error(texts.skip(i as int)),
            opts@.len() == i,
            forall|j: int| 0 <= j < i ==> (#[trigger] opts@[j])@ == trim_spec(body.options@[j].text@),
        decreases body.options.len() - i,
    {
        assert(texts[i as int] == body.options@[i as int].text@);
        assert(texts.skip(i as int)[0] == texts[i as int]);
        assert(texts.skip(i as int).drop_first() == texts.skip(i as int + 1));
        let t = match check_name(body.options[i].text.as_str(), MAX_POLL_OPTION_LEN) {
            Some(t) => t,
            None => return Err(bad_request("Poll options must be between 1 and 100 characters")),
        };
        if contains_dangerous_markup(t.as_str()) {
            return Err(bad_request("Poll options contain unsafe markup"));
        }
        opts.push(t);
        i = i + 1;
    }
    assert(texts.skip(i as int).len() == 0);
    if let Some(m) = body.expires_in_minutes {
        if !(1 <= m && m <= MAX_POLL_DURATION_MINUTES) {
            return Err(bad_request("Poll duration must be between 1 minute and 14 days"));
        }
    }
    Ok((q, opts))
}

// ---------------------------------------------------------------------------
// Threads and forums
// ---------------------------------------------------------------------------

/// Why a thread name is refused, if it is: it must not be blank, must be
/// at most 100 bytes as given, and must hold no unsafe markup.
pub open spec fn thread_name_error(name: Seq<char>) -> Option<Seq<char>> {
    if trim_spec(name).len() == 0 || utf8_len(name) > 100 {
        Some("Thread name must be 1-100 characters"@)
    } else if dangerous_markup_spec(name) {
        Some("Thread name contains unsafe markup"@)
    } else {
        None
    }
}

pub fn validate_thread_name(name: &str) -> (r: Result<(), ApiError>)
    ensures
        match r {
            Ok(()) => thread_name_error(name@) is None,
            Err(e) => thread_name_error(name@) matches Some(m) && is_bad_request(e, m),
        },
{
    let v = chars_of(name);
    if trim(&v).len() == 0 || utf8_len_capped(&v, 100) > 100 {
        return Err(bad_request("Thread name must be 1-100 characters"));
    }
    if contains_dangerous_markup(name) {
        return Err(bad_request("Thread name contains unsafe markup"));
    }
    Ok(())
}

/// Checks a forum post title (trimmed, 1 to 100 bytes, no unsafe markup)
/// and returns it trimmed.
pub fn validate_forum_post_title(name: &str) -> (r: Result<String, ApiError>)
    ensures
        match r {
            Ok(t) => name_fits(name@, 100) && !dangerous_markup_spec(trim_spec(name@)) && t@
                == trim_spec(name@),
            Err(e) => if !name_fits(name@, 100) {
                is_bad_request(e, "Post title must be 1-100 characters"@)
            } else {
                dangerous_markup_spec(trim_spec(name@)) && is_bad_request(
                    e,
                    "Post title contains unsafe markup"@,
                )
            },
        },
{
    let t = match check_name(name, 100) {
        Some(t) => t,
        None => return Err(bad_request("Post title must be 1-100 characters")),
    };
    if contains_dangerous_markup(t.as_str()) {
        return Err(bad_request("Post title contains unsafe markup"));
    }
    Ok(t)
}

/// Checks a forum tag name (trimmed, 1 to 30 bytes, no unsafe markup) and
/// returns it trimmed.
pub fn validate_forum_tag_name(name: &str) -> (r: Result<String, ApiError>)
    ensures
        match r {
            Ok(t) => name_fits(name@, 30) && !dangerous_markup_spec(trim_spec(name@)) && t@
                == trim_spec(name@),
            Err(e) => if !name_fits(name@, 30) {
                is_bad_request(e, "Tag name must be 1-30 characters"@)
            } else {
                dangerous_markup_spec(trim_spec(name@)) && is_bad_request(
                    e,
                    "Tag name contains unsafe markup"@,
                )
            },
        },
{
    let t = match check_name(name, 30) {
        Some(t) => t,
        None => return Err(bad_request("Tag name must be 1-30 characters")),
    };
    if contains_dangerous_markup(t.as_str()) {
        return Err(bad_request("Tag name contains unsafe markup"));
    }
    Ok(t)
}

/// A forum's sort order is 0 or 1.
pub fn validate_forum_sort_order(sort_order: i32) -> (r: Result<(), ApiError>)
    ensures
        r is Ok <==> (sort_order == 0 || sort_order == 1),
        r matches Err(e) ==> is_bad_request(e, "sort_order must be 0 or 1"@),
{
    if sort_order != 0 && sort_order != 1 {
        return Err(bad_request("sort_order must be 0 or 1"));
    }
    Ok(())
}

/// Threads may only branch from text (0) or announcement (5) channels.
pub fn check_thread_parent_type(channel_type: i16) -> (r: Result<(), ApiError>)
    ensures
        r is Ok <==> (channel_type == 0 || channel_type == 5),
        r matches Err(e) ==> is_bad_request(
            e,
            "Threads can only be created in text or announcement channels"@,
        ),
{
    if channel_type != 0 && channel_type != 5 {
        return Err(bad_request("Threads can only be created in text or announcement channels"));
    }
    Ok(())
}

/// A message search needs a query that is not blank.
pub fn validate_search_query(q: &str) -> (r: Result<(), ApiError>)
    ensures
        r is Ok <==> trim_spec(q@).len() > 0,
        r matches Err(e) ==> is_bad_request(e, "Query must not be empty"@),
{
    if trim(&chars_of(q)).len() == 0 {
        return Err(bad_request("Query must not be empty"));
    }
    Ok(())
}

// ---------------------------------------------------------------------------
// Requests
// ---------------------------------------------------------------------------

pub struct CreateChannelRequest {
    pub name: String,
    pub channel_type: i16,
    pub parent_id: Option<i64>,
    pub required_role_ids: Option<Vec<String>>,
}

pub struct UpdateChannelRequest {
    pub name: Option<String>,
    pub topic: Option<String>,
    pub required_role_ids: Option<Vec<String>>,
}

pub struct MessageQuery {
    pub before: Option<i64>,
    pub limit: Option<i64>,
}

pub struct MessageSearchQuery {
    pub q: String,
    pub limit: Option<i64>,
}

pub struct BulkDeleteMessagesRequest {
    pub message_ids: Vec<String>,
}

pub struct UpdateReadStateRequest {
    pub last_message_id: Option<String>,
}

pub struct UpsertChannelOverwriteRequest {
    pub target_type: i16,
    pub allow_perms: i64,
    pub deny_perms: i64,
}

pub struct CreateThreadRequest {
    pub name: String,
    pub message_id: Option<String>,
    pub auto_archive_duration: Option<i64>,
}

pub struct UpdateThreadRequest {
    pub name: Option<String>,
    pub archived: Option<bool>,
    pub locked: Option<bool>,
}

pub struct ForumPostQuery {
    pub sort_order: Option<i32>,
    pub include_archived: Option<bool>,
}

pub struct CreateForumPostRequest {
    pub name: String,
    pub content: Option<String>,
    pub applied_tag_ids: Option<Vec<String>>,
}

pub struct CreateForumTagRequest {
    pub name: String,
    pub emoji: Option<String>,
    pub moderated: Option<bool>,
}

pub struct UpdateForumSortOrderRequest {
    pub sort_order: i32,
}

// ---------------------------------------------------------------------------
// Forum tags and polls as the API shows them
// ---------------------------------------------------------------------------

/// A forum tag as stored. Times are `(seconds, nanoseconds)` since the
/// Unix epoch.
pub struct ForumTagRow {
    pub id: i64,
    pub channel_id: i64,
    pub name: String,
    pub emoji: Option<String>,
    pub moderated: bool,
    pub position: i64,
    pub created_at: (i64, u32),
}

fn opt_string_json(o: &Option<String>) -> (r: Json)
    ensures
        text_or_null(Some(r), ostring_view(*o)),
{
    match o {
        Some(s) => Json::Str(s.clone()),
        None => Json::Null,
    }
}

fn id_json(n: i64) -> (r: Json)
    ensures
        opt_as_str(Some(r)) == Some(int_decimal(n as int)),
{
    Json::Str(string_from_chars(&i64_decimal(n)))
}

proof fn lemma_tag_and_poll_keys_differ()
    ensures
        "id"@.len() == 2,
        "channel_id"@.len() == 10 && "channel_id"@[0] == 'c',
        "name"@.len() == 4 && "name"@[0] == 'n',
        "emoji"@.len() == 5,
        "moderated"@.len() == 9,
        "position"@.len() == 8 && "position"@[0] == 'p',
        "created_at"@.len() == 10 && "created_at"@[0] == 'c' && "created_at"@[1] == 'r' && "channel_id"@[1] == 'h',
        "text"@.len() == 4 && "text"@[0] == 't',
        "vote_count"@.len() == 10 && "vote_count"@[0] == 'v',
        "voted"@.len() == 5 && "voted"@[0] == 'v' && "emoji"@[0] == 'e',
        "message_id"@.len() == 10 && "message_id"@[0] == 'm',
        "question"@.len() == 8 && "question"@[0] == 'q',
        "allow_multiselect"@.len() == 17,
        "expires_at"@.len() == 10 && "expires_at"@[0] == 'e',
        "options"@.len() == 7,
        "total_votes"@.len() == 11,
{
    reveal_strlit("id");
    reveal_strlit("channel_id");
    reveal_strlit("name");
    reveal_strlit("emoji");
    reveal_strlit("moderated");
    reveal_strlit("position");
    reveal_strlit("created_at");
    reveal_strlit("text");
    reveal_strlit("vote_count");
    reveal_strlit("voted");
    reveal_strlit("message_id");
    reveal_strlit("question");
    reveal_strlit("allow_multiselect");
    reveal_strlit("expires_at");
    reveal_strlit("options");
    reveal_strlit("total_votes");
}

/// A forum tag as the API shows it; `None` only where the creation time has
/// no RFC 3339 form.
pub fn forum_tag_to_json(tag: &ForumTagRow) -> (j: Option<Json>)
    ensures
        j is Some <==> rfc3339_utc_spec(tag.created_at.0, tag.created_at.1) is Some,
        j matches Some(v) ==> {
            &&& object_keys(v) == seq![
                "id"@,
                "channel_id"@,
                "name"@,
                "emoji"@,
                "moderated"@,
                "position"@,
                "created_at"@,
            ]
            &&& opt_as_str(get_spec(v, "id"@)) == Some(int_decimal(tag.id as int))
            &&& opt_as_str(get_spec(v, "channel_id"@)) == Some(int_decimal(tag.channel_id as int))
            &&& opt_as_str(get_spec(v, "name"@)) == Some(tag.name@)
            &&& text_or_null(get_spec(v, "emoji"@), ostring_view(tag.emoji))
            &&& get_spec(v, "moderated"@) == Some(Json::Bool(tag.moderated))
            &&& get_spec(v, "position"@) == Some(Json::Number(Some(tag.position)))
            &&& opt_as_str(get_spec(v, "created_at"@)) == rfc3339_utc_spec(tag.created_at.0, tag.created_at.1)
        },
{
    proof {
        lemma_tag_and_poll_keys_differ();
    }
    let created = match rfc3339_utc(tag.created_at.0, tag.created_at.1) {
        Some(t) => t,
        None => return None,
    };
    let mut f: Vec<(String, Json)> = Vec::new();
    proof {
        assert forall|k: Seq<char>| #[trigger] member(f@, k) is None by {}
    }
    obj_push(&mut f, "id", id_json(tag.id));
    obj_push(&mut f, "channel_id", id_json(tag.channel_id));
    obj_push(&mut f, "name", Json::Str(tag.name.clone()));
    obj_push(&mut f, "emoji", opt_string_json(&tag.emoji));
    obj_push(&mut f, "moderated", Json::Bool(tag.moderated));
    obj_push(&mut f, "position", Json::Number(Some(tag.position)));
    obj_push(&mut f, "created_at", Json::Str(created));
    let v = Json::Object(f);
    proof {
        assert(object_keys(v) =~= seq![
            "id"@,
            "channel_id"@,
            "name"@,
            "emoji"@,
            "moderated"@,
            "position"@,
            "created_at"@,
        ]);
    }
    Some(v)
}

/// One option of a poll as the viewer sees it.
pub struct PollOptionRow {
    pub id: i64,
    pub text: String,
    pub emoji: Option<String>,
    pub position: i64,
    pub vote_count: i64,
    pub voted: bool,
}

/// A poll with its options and vote total. Times are `(seconds,
/// nanoseconds)` since the Unix epoch.
pub struct PollWithOptions {
    pub id: i64,
    pub message_id: i64,
    pub channel_id: i64,
    pub question: String,
    pub allow_multiselect: bool,
    pub expires_at: Option<(i64, u32)>,
    pub created_at: (i64, u32),
    pub options: Vec<PollOptionRow>,
    pub total_votes: i64,
}

pub open spec fn poll_option_ok(j: Json, o: PollOptionRow) -> bool {
    &&& object_keys(j) == seq!["id"@, "text"@, "emoji"@, "position"@, "vote_count"@, "voted"@]
    &&& opt_as_str(get_spec(j, "id"@)) == Some(int_decimal(o.id as int))
    &&& opt_as_str(get_spec(j, "text"@)) == Some(o.text@)
    &&& text_or_null(get_spec(j, "emoji"@), ostring_view(o.emoji))
    &&& get_spec(j, "position"@) == Some(Json::Number(Some(o.position)))
    &&& get_spec(j, "vote_count"@) == Some(Json::Number(Some(o.vote_count)))
    &&& get_spec(j, "voted"@) == Some(Json::Bool(o.voted))
}

fn poll_option_json(o: &PollOptionRow) -> (j: Json)
    ensures
        poll_option_ok(j, *o),
{
    proof {
        lemma_tag_and_poll_keys_differ();
    }
    let mut f: Vec<(String, Json)> = Vec::new();
    proof {
        assert forall|k: Seq<char>| #[trigger] member(f@, k) is None by {}
    }
    obj_push(&mut f, "id", id_json(o.id));
    obj_push(&mut f, "text", Json::Str(o.text.clone()));
    obj_push(&mut f, "emoji", opt_string_json(&o.emoji));
    obj_push(&mut f, "position", Json::Number(Some(o.position)));
    obj_push(&mut f, "vote_count", Json::Number(Some(o.vote_count)));
    obj_push(&mut f, "voted", Json::Bool(o.voted));
    let v = Json::Object(f);
    proof {
        assert(object_keys(v) =~= seq!["id"@, "text"@, "emoji"@, "position"@, "vote_count"@, "voted"@]);
    }
    v
}

/// The expiry of a poll in RFC 3339 form: `Some(None)` when the poll does
/// not expire, `None` when the time has no such form.
pub open spec fn poll_expiry_text(e: Option<(i64, u32)>) -> Option<Option<Seq<char>>> {
    match e {
        Some(t) => match rfc3339_utc_spec(t.0, t.1) {
            Some(x) => Some(Some(x)),
            None => None,
        },
        None => Some(None),
    }
}

/// A poll as the API shows it; `None` only where one of its times has no
/// RFC 3339 form.
pub fn poll_to_json(poll: &PollWithOptions) -> (j: Option<Json>)
    ensures
        j is Some <==> (rfc3339_utc_spec(poll.created_at.0, poll.created_at.1) is Some
            && poll_expiry_text(poll.expires_at) is Some),
        j matches Some(v) ==> {
            &&& object_keys(v) == seq![
                "id"@,
                "message_id"@,
                "channel_id"@,
                "question"@,
                "allow_multiselect"@,
                "expires_at"@,
                "created_at"@,
                "options"@,
                "total_votes"@,
            ]
            &&& opt_as_str(get_spec(v, "id"@)) == Some(int_decimal(poll.id as int))
            &&& opt_as_str(get_spec(v, "message_id"@)) == Some(int_decimal(poll.message_id as int))
            &&& opt_as_str(get_spec(v, "channel_id"@)) == Some(int_decimal(poll.channel_id as int))
            &&& opt_as_str(get_spec(v, "question"@)) == Some(poll.question@)
            &&& get_spec(v, "allow_multiselect"@) == Some(Json::Bool(poll.allow_multiselect))
            &&& text_or_null(get_spec(v, "expires_at"@), poll_expiry_text(poll.expires_at)->0)
            &&& opt_as_str(get_spec(v, "created_at"@)) == rfc3339_utc_spec(poll.created_at.0, poll.created_at.1)
            &&& get_spec(v, "options"@) matches Some(Json::Array(items)) && items@.len() == poll.options@.len()
                && forall|i: int| 0 <= i < items@.len() ==> poll_option_ok(#[trigger] items@[i], poll.options@[i])
            &&& get_spec(v, "total_votes"@) == Some(Json::Number(Some(poll.total_votes)))
        },
{
    proof {
        lemma_tag_and_poll_keys_differ();
    }
    let created = match rfc3339_utc(poll.created_at.0, poll.created_at.1) {
        Some(t) => t,
        None => return None,
    };
    let expires = match poll.expires_at {
        Some(t) => match rfc3339_utc(t.0, t.1) {
            Some(x) => Json::Str(x),
            None => return None,
        },
        None => Json::Null,
    };
    let mut options: Vec<Json> = Vec::new();
    let mut i: usize = 0;
    while i < poll.options.len()
        invariant
            i <= poll.options@.len(),
            options@.len() == i,
            forall|t: int| 0 <= t < i ==> poll_option_ok(#[trigger] options@[t], poll.options@[t]),
        decreases poll.options.len() - i,
    {
        options.push(poll_option_json(&poll.options[i]));
        i = i + 1;
    }
    let mut f: Vec<(String, Json)> = Vec::new();
    proof {
        assert forall|k: Seq<char>| #[trigger] member(f@, k) is None by {}
    }
    obj_push(&mut f, "id", id_json(poll.id));
    obj_push(&mut f, "message_id", id_json(poll.message_id));
    obj_push(&mut f, "channel_id", id_json(poll.channel_id));
    obj_push(&mut f, "question", Json::Str(poll.question.clone()));
    obj_push(&mut f, "allow_multiselect", Json::Bool(poll.allow_multiselect));
    obj_push(&mut f, "expires_at", expires);
    obj_push(&mut f, "created_at", Json::Str(created));
    obj_push(&mut f, "options", Json::Array(options));
    obj_push(&mut f, "total_votes", Json::Number(Some(poll.total_votes)));
    let v = Json::Object(f);
    proof {
        assert(object_keys(v) =~= seq![
            "id"@,
            "message_id"@,
            "channel_id"@,
            "question"@,
            "allow_multiselect"@,
            "expires_at"@,
            "created_at"@,
            "options"@,
            "total_votes"@,
        ]);
    }
    Some(v)
}

proof fn lemma_reaction_keys_differ()
    ensures
        "user_id"@.len() == 7,
        "guild_id"@.len() == 8,
        "channel_id"@.len() == 10 && "channel_id"@[0] == 'c',
        "message_id"@.len() == 10 && "message_id"@[0] == 'm',
        "emoji"@.len() == 5,
{
    reveal_strlit("user_id");
    reveal_strlit("guild_id");
    reveal_strlit("channel_id");
    reveal_strlit("message_id");
    reveal_strlit("emoji");
}

/// The `MESSAGE_REACTION_ADD`/`_REMOVE` event: who reacted, where, and with
/// which emoji.
pub fn reaction_event(user_id: i64, channel_id: i64, message_id: i64, emoji: &str) -> (r: Json)
    ensures
        object_keys(r) == seq!["user_id"@, "channel_id"@, "message_id"@, "emoji"@],
        opt_as_str(get_spec(r, "user_id"@)) == Some(int_decimal(user_id as int)),
        opt_as_str(get_spec(r, "channel_id"@)) == Some(int_decimal(channel_id as int)),
        opt_as_str(get_spec(r, "message_id"@)) == Some(int_decimal(message_id as int)),
        opt_as_str(get_spec(r, "emoji"@)) == Some(emoji@),
{
    proof {
        lemma_reaction_keys_differ();
    }
    let mut f: Vec<(String, Json)> = Vec::new();
    proof {
        assert forall|k: Seq<char>| #[trigger] member(f@, k) is None by {}
    }
    obj_push(&mut f, "user_id", id_json(user_id));
    obj_push(&mut f, "channel_id", id_json(channel_id));
    obj_push(&mut f, "message_id", id_json(message_id));
    obj_push(&mut f, "emoji", Json::Str(String::from_str(emoji)));
    let r = Json::Object(f);
    proof {
        assert(object_keys(r) =~= seq!["user_id"@, "channel_id"@, "message_id"@, "emoji"@]);
    }
    r
}

/// The content of a reaction sent to federated peers: the guild, channel
/// and message ids, and the emoji.
pub fn federated_reaction_content(guild_id: i64, channel_id: i64, message_id: i64, emoji: &str) -> (r: Json)
    ensures
        object_keys(r) == seq!["guild_id"@, "channel_id"@, "message_id"@, "emoji"@],
        opt_as_str(get_spec(r, "guild_id"@)) == Some(int_decimal(guild_id as int)),
        opt_as_str(get_spec(r, "channel_id"@)) == Some(int_decimal(channel_id as int)),
        opt_as_str(get_spec(r, "message_id"@)) == Some(int_decimal(message_id as int)),
        opt_as_str(get_spec(r, "emoji"@)) == Some(emoji@),
{
    proof {
        lemma_reaction_keys_differ();
    }
    let mut f: Vec<(String, Json)> = Vec::new();
    proof {
        assert forall|k: Seq<char>| #[trigger] member(f@, k) is None by {}
    }
    obj_push(&mut f, "guild_id", id_json(guild_id));
    obj_push(&mut f, "channel_id", id_json(channel_id));
    obj_push(&mut f, "message_id", id_json(message_id));
    obj_push(&mut f, "emoji", Json::Str(String::from_str(emoji)));
    let r = Json::Object(f);
    proof {
        assert(object_keys(r) =~= seq!["guild_id"@, "channel_id"@, "message_id"@, "emoji"@]);
    }
    r
}

proof fn lemma_e2ee_keys_differ()
    ensures
        "version"@.len() == 7,
        "nonce"@.len() == 5,
        "ciphertext"@.len() == 10,
        "header"@.len() == 6,
{
    reveal_strlit("version");
    reveal_strlit("nonce");
    reveal_strlit("ciphertext");
    reveal_strlit("header");
}

/// The `content` and `e2ee` fields of a message as the API shows it. An
/// end-to-end encrypted direct message shows no content; its `e2ee` field
/// carries the nonce and ciphertext (the stored content), with the
/// header and version 2 when a header is stored, version 1 otherwise, or
/// is null when the nonce or ciphertext is missing. Other messages show
/// their content (or null) and a null `e2ee` field.
pub fn message_body_fields(
    is_dm_e2ee: bool,
    nonce: &Option<String>,
    content: &Option<String>,
    e2ee_header: &Option<String>,
) -> (r: (Json, Json))
    ensures
        is_dm_e2ee ==> r.0 == Json::Null,
        !is_dm_e2ee ==> text_or_null(Some(r.0), ostring_view(*content)),
        !is_dm_e2ee ==> r.1 == Json::Null,
        is_dm_e2ee && (nonce is None || content is None) ==> r.1 == Json::Null,
        is_dm_e2ee && nonce is Some && content is Some ==> {
            &&& object_keys(r.1) == seq!["version"@, "nonce"@, "ciphertext"@] + (if e2ee_header is Some {
                seq!["header"@]
            } else {
                Seq::empty()
            })
            &&& get_spec(r.1, "version"@) == Some(Json::Number(Some(if e2ee_header is Some { 2i64 } else { 1i64 })))
            &&& opt_as_str(get_spec(r.1, "nonce"@)) == Some(nonce->0@)
            &&& opt_as_str(get_spec(r.1, "ciphertext"@)) == Some(content->0@)
            &&& match *e2ee_header {
                Some(h) => opt_as_str(get_spec(r.1, "header"@)) == Some(h@),
                None => get_spec(r.1, "header"@) is None,
            }
        },
{
    if !is_dm_e2ee {
        return (opt_string_json(content), Json::Null);
    }
    proof {
        lemma_e2ee_keys_differ();
    }
    let payload = match (nonce, content) {
        (Some(n), Some(c)) => {
            let mut f: Vec<(String, Json)> = Vec::new();
            proof {
                assert forall|k: Seq<char>| #[trigger] member(f@, k) is None by {}
            }
            let version: i64 = if e2ee_header.is_some() { 2 } else { 1 };
            obj_push(&mut f, "version", Json::Number(Some(version)));
            obj_push(&mut f, "nonce", Json::Str(n.clone()));
            obj_push(&mut f, "ciphertext", Json::Str(c.clone()));
            if let Some(h) = e2ee_header {
                obj_push(&mut f, "header", Json::Str(h.clone()));
            }
            let v = Json::Object(f);
            proof {
                assert(object_keys(v) =~= seq!["version"@, "nonce"@, "ciphertext"@] + (if e2ee_header is Some {
                    seq!["header"@]
                } else {
                    Seq::empty()
                }));
            }
            v
        },
        _ => Json::Null,
    };
    (Json::Null, payload)
}


/// Who hears of a newly created message.
#[derive(PartialEq, Eq, Structural, Clone, Copy, Debug)]
pub enum MessageAudience {
    /// The participants of a direct-message channel.
    DmRecipients,
    /// Everyone in this guild.
    Guild(i64),
}

/// What follows the storing of a message.
#[derive(PartialEq, Eq, Structural, Clone, Copy, Debug)]
pub struct MessageFollowUp {
    /// The message was created now: answer `201 Created` (else `200 OK`).
    pub created: bool,
    /// Count the message in its thread.
    pub count_in_thread: bool,
    /// Announce `MESSAGE_CREATE`, and to whom.
    pub announce: Option<MessageAudience>,
    /// Forward the message to peer servers.
    pub federate: bool,
}

/// The channel type of a thread.
pub const THREAD_CHANNEL_TYPE: i16 = 6;

/// A message is new when the store kept the id generated for it (a repeated
/// nonce hands back the earlier message instead). Only a new message is
/// counted in its thread, announced (to the participants of a direct
/// message, else to its guild) and, in a guild with federation on,
/// forwarded to peers.
pub open spec fn follow_up_spec(
    stored_id: i64,
    generated_id: i64,
    channel_type: i16,
    guild_id: Option<i64>,
    federation_enabled: bool,
) -> MessageFollowUp {
    MessageFollowUp {
        created: stored_id == generated_id,
        count_in_thread: stored_id == generated_id && channel_type == THREAD_CHANNEL_TYPE,
        announce: if stored_id == generated_id {
            Some(match guild_id {
                None => MessageAudience::DmRecipients,
                Some(g) => MessageAudience::Guild(g),
            })
        } else {
            None
        },
        federate: stored_id == generated_id && guild_id is Some && federation_enabled,
    }
}

pub fn message_follow_up(
    stored_id: i64,
    generated_id: i64,
    channel_type: i16,
    guild_id: Option<i64>,
    federation_enabled: bool,
) -> (r: MessageFollowUp)
    ensures
        r == follow_up_spec(stored_id, generated_id, channel_type, guild_id, federation_enabled),
{
    let created_new = stored_id == generated_id;
    let announce = if created_new {
        Some(match guild_id {
            None => MessageAudience::DmRecipients,
            Some(g) => MessageAudience::Guild(g),
        })
    } else {
        None
    };
    MessageFollowUp {
        created: created_new,
        count_in_thread: created_new && channel_type == THREAD_CHANNEL_TYPE,
        announce,
        federate: created_new && guild_id.is_some() && federation_enabled,
    }
}


/// A message sent twice with one nonce is announced once: the first call
/// creates it (`201`), announces it, counts it in its thread and forwards
/// it as configured; the second gets the stored message back (`200`) and
/// does none of these.
pub proof fn law_repeated_nonce_announced_once(
    message_id: i64,
    second_generated_id: i64,
    channel_type: i16,
    guild_id: Option<i64>,
    federation_enabled: bool,
)
    requires
        second_generated_id != message_id,
    ensures
        follow_up_spec(message_id, message_id, channel_type, guild_id, federation_enabled).created,
        follow_up_spec(message_id, message_id, channel_type, guild_id, federation_enabled).announce is Some,
        ({
            let second = follow_up_spec(message_id, second_generated_id, channel_type, guild_id, federation_enabled);
            !second.created && second.announce is None && !second.count_in_thread && !second.federate
        }),
{
}

} // verus!
