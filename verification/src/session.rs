//! Values that requests carry: the user agent, the referrer, and the checks
//! on a logged-in session.
use vstd::prelude::*;
use crate::base32::Base32;

verus! {

/// The `User-Agent` header of a request.
pub struct UserAgentString<'r> {
    pub user_agent: &'r str,
}

impl<'r> UserAgentString<'r> {
    /// The user agent of a request with this header; a request without one
    /// is refused (`None`, answered `400 Bad Request`).
    pub fn from_header(header: Option<&'r str>) -> (r: Option<UserAgentString<'r>>)
        ensures
            match header {
                Some(h) => r matches Some(u) && u.user_agent@ == h@,
                None => r is None,
            },
    {
        match header {
            Some(user_agent) => Some(UserAgentString { user_agent }),
            None => None,
        }
    }
}

/// The `Referer` header of a request, empty when there is none.
pub struct ReferrerString<'r> {
    pub referrer: &'r str,
}

impl<'r> ReferrerString<'r> {
    /// The referrer of a request with this header: the empty string when
    /// the header is missing.
    pub fn from_header(header: Option<&'r str>) -> (r: ReferrerString<'r>)
        ensures
            match header {
                Some(h) => r.referrer@ == h@,
                None => r.referrer@ == Seq::<char>::empty(),
            },
    {
        proof {
            reveal_strlit("");
        }
        match header {
            Some(h) => {
                let r = ReferrerString { referrer: h };
                assert(r.referrer@ == h@);
                r
            },
            None => ReferrerString { referrer: "" },
        }
    }
}

/// Whether a request passes the CSRF check: reading requests (`GET` and
/// `HEAD`) always do; any other must carry the session id of its cookie in
/// its `U` parameter.
pub fn csrf_ok(is_read: bool, cookie_session: Option<Base32>, param_session: Option<Base32>) -> (r:
    bool)
    ensures
        r == (is_read || match (param_session, cookie_session) {
            (Some(a), Some(b)) => a@ == b@,
            (None, None) => true,
            _ => false,
        }),
{
    if is_read {
        return true;
    }
    match (param_session, cookie_session) {
        (Some(a), Some(b)) => a.into_u64() == b.into_u64(),
        (None, None) => true,
        _ => false,
    }
}

/// What a login does with a user's ban markers: a user at trust level -2
/// gets the ban cookie; a user with the ban cookie is set to trust level
/// -2.
#[derive(Clone, Copy, Debug, PartialEq, Eq, Structural)]
pub enum BanMarker {
    Nothing,
    SetCookie,
    SetTrustLevel,
}

/// What a login does with a user's ban markers (see [`BanMarker`]).
pub fn ban_marker(trust_level: i32, has_ban_cookie: bool) -> (r: BanMarker)
    ensures
        r == (if trust_level == -2 {
            BanMarker::SetCookie
        } else if has_ban_cookie {
            BanMarker::SetTrustLevel
        } else {
            BanMarker::Nothing
        }),
{
    if trust_level == -2 {
        BanMarker::SetCookie
    } else if has_ban_cookie {
        BanMarker::SetTrustLevel
    } else {
        BanMarker::Nothing
    }
}

/// Whether a logged-in user may act as a moderator.
pub fn is_moderator(trust_level: i32) -> (r: bool)
    ensures
        r == (trust_level >= 3),
{
    trust_level >= 3
}

} // verus!
