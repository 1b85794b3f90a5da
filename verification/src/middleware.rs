//! The identity a request carries: a bearer token in its `Authorization`
//! header, checked before any handler runs.
use vstd::prelude::*;
use crate::headers::{RequestHeaders, header_str};
use crate::text::{lit, slice_range, starts_with, starts_with_spec, string_from_chars};

verus! {

/// A signed-in user.
pub struct AuthUser {
    pub user_id: i64,
}

/// A signed-in user with server administration rights.
pub struct AdminUser {
    pub user_id: i64,
}

/// The token of a `Bearer` authorization, or the status and text of the
/// rejection.
pub open spec fn bearer_spec(h: Seq<(Seq<char>, Seq<char>)>) -> Result<Seq<char>, (u16, Seq<char>)> {
    match header_str(h, "authorization"@) {
        None => Err((401, "Missing authorization header"@)),
        Some(v) => if starts_with_spec(v, "Bearer "@) {
            Ok(v.skip(7))
        } else {
            Err((401, "Invalid authorization format"@))
        },
    }
}

/// Reads the bearer token of a request.
pub fn bearer_token(headers: &RequestHeaders) -> (r: Result<String, (u16, &'static str)>)
    ensures
        match r {
            Ok(t) => bearer_spec(headers@) == Ok::<Seq<char>, (u16, Seq<char>)>(t@),
            Err((status, msg)) => bearer_spec(headers@) == Err::<Seq<char>, (u16, Seq<char>)>(
                (status, msg@),
            ),
        },
{
    proof {
        reveal_strlit("Bearer ");
    }
    let v = match headers.get_str("authorization") {
        Some(v) => v,
        None => return Err((401, "Missing authorization header")),
    };
    if !starts_with(&v, &lit("Bearer ")) {
        return Err((401, "Invalid authorization format"));
    }
    Ok(string_from_chars(&slice_range(&v, 7, v.len())))
}

} // verus!
