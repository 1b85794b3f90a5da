//! Attachments: upload limits, where a file is stored, and how uploads and
//! downloads are described.
use vstd::prelude::*;
use crate::text::{ostr_view};
use crate::error::{ApiError, bad_request, is_bad_request};
use crate::json::{Json, get_spec, member, obj_push, object_keys, opt_as_str, text_or_null};
use crate::text::{i64_decimal, int_decimal, string_from_chars};
use crate::trusted::{ext_of, path_extension, portable_file_name};

verus! {

/// The size an upload is recorded with: its length as an `i32`, wrapping
/// as the cast does. Empty uploads and uploads over the limit are refused.
pub fn check_upload_size(len: usize, max_upload_size: u64) -> (r: Result<i32, ApiError>)
    ensures
        (len as i32) == 0 ==> (r matches Err(e) && is_bad_request(e, "Empty file"@)),
        (len as i32) != 0 && (len as i32) > (max_upload_size as i32) ==> (r matches Err(e)
            && is_bad_request(e, "File too large"@)),
        (len as i32) != 0 && (len as i32) <= (max_upload_size as i32) ==> r == Ok::<i32, ApiError>(
            len as i32,
        ),
{
    let size = len as i32;
    if size == 0 {
        return Err(bad_request("Empty file"));
    }
    if size > max_upload_size as i32 {
        return Err(bad_request("File too large"));
    }
    Ok(size)
}

/// `/api/v1/attachments/<id>`.
pub open spec fn attachment_url_spec(id: i64) -> Seq<char> {
    "/api/v1/attachments/"@ + int_decimal(id as int)
}

pub fn attachment_url(id: i64) -> (r: String)
    ensures
        r@ == attachment_url_spec(id),
{
    let mut s = String::from_str("/api/v1/attachments/");
    s.append(string_from_chars(&i64_decimal(id)).as_str());
    s
}

/// `<id>.<extension>`, with `bin` for a file name without an extension.
pub open spec fn stored_name_spec(id: i64, extension: Option<Seq<char>>) -> Seq<char> {
    int_decimal(id as int) + seq!['.'] + match extension {
        Some(e) => e,
        None => "bin"@,
    }
}

/// The name an attachment's bytes are stored under, from its id and the
/// extension of its file name.
pub fn stored_attachment_name(id: i64, extension: Option<&str>) -> (r: String)
    ensures
        r@ == stored_name_spec(
            id,
            match extension {
                Some(e) => Some(e@),
                None => None,
            },
        ),
{
    let mut s = string_from_chars(&i64_decimal(id));
    s.append(".");
    match extension {
        Some(e) => s.append(e),
        None => s.append("bin"),
    }
    proof {
        reveal_strlit(".");
    }
    s
}

/// The stored name of an attachment, taking the extension from its file
/// name as the platform's paths define it.
pub fn attachment_file_name(id: i64, filename: &str) -> (r: String)
    ensures
        exists|extension: Option<Seq<char>>| r@ == stored_name_spec(id, extension),
        portable_file_name(filename@) matches Some(n) ==> r@ == stored_name_spec(id, ext_of(n)),
{
    let ext = path_extension(filename);
    let r = match &ext {
        Some(e) => stored_attachment_name(id, Some(e.as_str())),
        None => stored_attachment_name(id, None),
    };
    proof {
        let e = match ext {
            Some(x) => Some(x@),
            None => None,
        };
        assert(r@ == stored_name_spec(id, e));
    }
    r
}

proof fn lemma_upload_keys_differ()
    ensures
        "id"@.len() == 2,
        "filename"@.len() == 8,
        "size"@.len() == 4,
        "content_type"@.len() == 12,
        "url"@.len() == 3,
{
    reveal_strlit("id");
    reveal_strlit("filename");
    reveal_strlit("size");
    reveal_strlit("content_type");
    reveal_strlit("url");
}

/// What an upload is answered with: the new attachment's id, file name,
/// size, content type (or null) and download URL.
pub fn uploaded_attachment_json(id: i64, filename: &str, size: i32, content_type: Option<&str>) -> (r: Json)
    ensures
        object_keys(r) == seq!["id"@, "filename"@, "size"@, "content_type"@, "url"@],
        opt_as_str(get_spec(r, "id"@)) == Some(int_decimal(id as int)),
        opt_as_str(get_spec(r, "filename"@)) == Some(filename@),
        get_spec(r, "size"@) == Some(Json::Number(Some(size as i64))),
        text_or_null(get_spec(r, "content_type"@), ostr_view(content_type)),
        opt_as_str(get_spec(r, "url"@)) == Some(attachment_url_spec(id)),
{
    proof {
        lemma_upload_keys_differ();
    }
    let ct = match content_type {
        Some(c) => Json::Str(String::from_str(c)),
        None => Json::Null,
    };
    let mut f: Vec<(String, Json)> = Vec::new();
    proof {
        assert forall|k: Seq<char>| #[trigger] member(f@, k) is None by {}
    }
    obj_push(&mut f, "id", Json::Str(string_from_chars(&i64_decimal(id))));
    obj_push(&mut f, "filename", Json::Str(String::from_str(filename)));
    obj_push(&mut f, "size", Json::Number(Some(size as i64)));
    obj_push(&mut f, "content_type", ct);
    obj_push(&mut f, "url", Json::Str(attachment_url(id)));
    let r = Json::Object(f);
    proof {
        assert(object_keys(r) =~= seq!["id"@, "filename"@, "size"@, "content_type"@, "url"@]);
    }
    r
}

/// The content type a download is served with: the stored one, else
/// `application/octet-stream`.
pub fn download_content_type(content_type: Option<&str>) -> (r: String)
    ensures
        r@ == (match content_type {
            Some(c) => c@,
            None => "application/octet-stream"@,
        }),
{
    match content_type {
        Some(c) => String::from_str(c),
        None => String::from_str("application/octet-stream"),
    }
}

/// `inline; filename="<file name>"`.
pub fn inline_disposition(filename: &str) -> (r: String)
    ensures
        r@ == "inline; filename=\""@ + filename@ + "\""@,
{
    let mut s = String::from_str("inline; filename=\"");
    s.append(filename);
    s.append("\"");
    s
}

/// An attachment already on a message may be deleted only by the
/// message's author; one not yet on a message by anyone who may reach it.
pub fn check_attachment_delete(message_author_id: Option<i64>, user_id: i64) -> (r: Result<(), ApiError>)
    ensures
        r is Ok <==> (message_author_id is None || message_author_id == Some(user_id)),
        r matches Err(e) ==> e is Forbidden,
{
    match message_author_id {
        Some(a) => if a != user_id {
            Err(ApiError::Forbidden)
        } else {
            Ok(())
        },
        None => Ok(()),
    }
}

} // verus!
