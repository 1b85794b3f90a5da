//! Users, friends and direct messages: request shapes and the checks made
//! before the store is consulted.
use vstd::prelude::*;
use crate::text::{chars_of, parse_i64, parse_in_range};
use crate::error::{ApiError, bad_request, is_bad_request};

verus! {

pub struct UpdateMeRequest {
    pub display_name: Option<String>,
    pub bio: Option<String>,
    pub avatar_hash: Option<String>,
}

pub struct CreateRelationshipRequest {
    pub user_id: Option<String>,
    pub username: Option<String>,
    pub rel_type: Option<i16>,
}

/// Whom a friend request names: a user id given as text, else a username
/// to look up.
pub enum FriendTarget {
    Id(i64),
    Username(String),
}

/// Reads the target of a friend request: the id when given (it must
/// parse), else the username; one of them is needed.
pub fn friend_target(body: &CreateRelationshipRequest) -> (r: Result<FriendTarget, ApiError>)
    ensures
        match body.user_id {
            Some(u) => match parse_in_range(u@, true, i64::MIN as int, i64::MAX as int) {
                Some(n) => r matches Ok(FriendTarget::Id(x)) && x == n,
                None => r matches Err(e) && is_bad_request(e, "Invalid user ID"@),
            },
            None => match body.username {
                Some(name) => r matches Ok(FriendTarget::Username(x)) && x@ == name@,
                None => r matches Err(e) && is_bad_request(
                    e,
                    "Either user_id or username must be provided"@,
                ),
            },
        },
{
    match &body.user_id {
        Some(u) => match parse_i64(&chars_of(u.as_str())) {
            Some(n) => Ok(FriendTarget::Id(n)),
            None => Err(bad_request("Invalid user ID")),
        },
        None => match &body.username {
            Some(name) => Ok(FriendTarget::Username(name.clone())),
            None => Err(bad_request("Either user_id or username must be provided")),
        },
    }
}

/// A user cannot befriend themselves.
pub fn check_not_self_friend(target_id: i64, user_id: i64) -> (r: Result<(), ApiError>)
    ensures
        r is Ok <==> target_id != user_id,
        r matches Err(e) ==> is_bad_request(e, "Cannot add yourself as a friend"@),
{
    if target_id == user_id {
        return Err(bad_request("Cannot add yourself as a friend"));
    }
    Ok(())
}

/// The relationship type of a request: 1 (friend) unless asked.
pub fn relationship_type(body: &CreateRelationshipRequest) -> (r: i16)
    ensures
        r == (match body.rel_type {
            Some(t) => t,
            None => 1,
        }),
{
    match body.rel_type {
        Some(t) => t,
        None => 1,
    }
}

pub struct CreateDmRequest {
    pub recipient_id: String,
}

/// The recipient of a new direct-message channel: a user id other than the
/// caller's.
pub fn dm_recipient(body: &CreateDmRequest, user_id: i64) -> (r: Result<i64, ApiError>)
    ensures
        match parse_in_range(body.recipient_id@, true, i64::MIN as int, i64::MAX as int) {
            Some(n) => if n == user_id {
                r matches Err(e) && is_bad_request(e, "Cannot create a DM channel with yourself"@)
            } else {
                r == Ok::<i64, ApiError>(n as i64)
            },
            None => r matches Err(e) && is_bad_request(e, "Invalid recipient_id"@),
        },
{
    let n = match parse_i64(&chars_of(body.recipient_id.as_str())) {
        Some(n) => n,
        None => return Err(bad_request("Invalid recipient_id")),
    };
    if n == user_id {
        return Err(bad_request("Cannot create a DM channel with yourself"));
    }
    Ok(n)
}

} // verus!
