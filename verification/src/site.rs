//! The decisions that the site's request handlers make: where a form sends
//! the browser back to, which vote a form asks for, and when a vote
//! promotes its user.
use vstd::prelude::*;
use crate::base32::{Base32, encode_spec, value_of};
use crate::html::{escape_into, escape_spec};
use crate::text::{push_str, chars_of, char_range};

verus! {

/// Where a form sends the browser back to, if anywhere.
#[derive(Clone, Copy)]
pub struct MaybeRedirect {
    pub redirect: Option<Base32>,
}

/// The relative URL of a redirect to the id `b`: the front page for the
/// zero id, the post otherwise.
pub open spec fn redirect_path(b: Base32) -> Seq<char> {
    if b@ == 0 {
        "."@
    } else {
        encode_spec(b@ as nat)
    }
}

/// The page that a vote answers with when it redirects: a link to `path`
/// at the anchor `hash`, followed by a script.
pub open spec fn vote_redirect_page(path: Seq<char>, hash: Seq<char>) -> Seq<char> {
    "<!DOCTYPE html><meta name=viewport content=width=device-width><h1><a href="@ + escape_spec(path)
        + "#"@ + escape_spec(hash)
        + ">Redirect OK</a></h1><script>window.location = document.getElementsByTagName('a')[0].href</script>"@
}

impl MaybeRedirect {
    /// The relative URL to send the browser to; `None` when the form asked
    /// for no redirect (the request is then answered `201 Created`).
    pub fn maybe_redirect(self) -> (r: Option<String>)
        ensures
            match self.redirect {
                None => r is None,
                Some(b) => r matches Some(s) && s@ == redirect_path(b),
            },
    {
        match self.redirect {
            Some(b) => {
                if b.into_u64() == 0 {
                    Some(".".to_string())
                } else {
                    Some(b.to_string())
                }
            },
            None => None,
        }
    }

    /// The page that sends the browser back after a vote, to the anchor
    /// `hash`; `None` when the form asked for no redirect.
    pub fn maybe_redirect_vote(self, hash: &str) -> (r: Option<String>)
        ensures
            match self.redirect {
                None => r is None,
                Some(b) => r matches Some(s) && s@ == vote_redirect_page(redirect_path(b), hash@),
            },
    {
        match self.maybe_redirect() {
            None => None,
            Some(p) => {
                let mut s = String::new();
                push_str(
                    &mut s,
                    "<!DOCTYPE html><meta name=viewport content=width=device-width><h1><a href=",
                );
                escape_into(p.as_str(), &mut s);
                push_str(&mut s, "#");
                escape_into(hash, &mut s);
                push_str(
                    &mut s,
                    ">Redirect OK</a></h1><script>window.location = document.getElementsByTagName('a')[0].href</script>",
                );
                Some(s)
            },
        }
    }
}

/// What a vote on a post does.
#[derive(Clone, Copy, Debug, PartialEq, Eq, Structural)]
pub enum PostVote {
    AddStar,
    RmStar,
    AddFlag,
    RmFlag,
    AddHide,
    RmHide,
}

/// The fields of a vote on a post: each names the post it applies to.
#[derive(Clone, Copy)]
pub struct VoteForm {
    pub rm_star: Option<Base32>,
    pub add_star: Option<Base32>,
    pub rm_flag: Option<Base32>,
    pub add_flag: Option<Base32>,
    pub rm_hide: Option<Base32>,
    pub add_hide: Option<Base32>,
}

impl VoteForm {
    /// The vote that the form asks for: exactly one field must be set.
    pub open spec fn action_spec(self) -> Option<(PostVote, Base32)> {
        match (self.add_star, self.rm_star, self.add_flag, self.rm_flag, self.add_hide, self.rm_hide) {
            (Some(u), None, None, None, None, None) => Some((PostVote::AddStar, u)),
            (None, Some(u), None, None, None, None) => Some((PostVote::RmStar, u)),
            (None, None, Some(u), None, None, None) => Some((PostVote::AddFlag, u)),
            (None, None, None, Some(u), None, None) => Some((PostVote::RmFlag, u)),
            (None, None, None, None, Some(u), None) => Some((PostVote::AddHide, u)),
            (None, None, None, None, None, Some(u)) => Some((PostVote::RmHide, u)),
            _ => None,
        }
    }

    /// The vote that the form asks for; `None` (a bad request) unless
    /// exactly one field is set.
    pub fn action(&self) -> (r: Option<(PostVote, Base32)>)
        ensures
            r == self.action_spec(),
    {
        match (self.add_star, self.rm_star, self.add_flag, self.rm_flag, self.add_hide, self.rm_hide) {
            (Some(u), None, None, None, None, None) => Some((PostVote::AddStar, u)),
            (None, Some(u), None, None, None, None) => Some((PostVote::RmStar, u)),
            (None, None, Some(u), None, None, None) => Some((PostVote::AddFlag, u)),
            (None, None, None, Some(u), None, None) => Some((PostVote::RmFlag, u)),
            (None, None, None, None, Some(u), None) => Some((PostVote::AddHide, u)),
            (None, None, None, None, None, Some(u)) => Some((PostVote::RmHide, u)),
            _ => None,
        }
    }
}

/// What a vote on a comment does.
#[derive(Clone, Copy, Debug, PartialEq, Eq, Structural)]
pub enum CommentVote {
    AddStar,
    RmStar,
    AddFlag,
    RmFlag,
    AddHide,
    RmHide,
}

/// The fields of a vote on a comment: each names the comment it applies to.
#[derive(Clone, Copy)]
pub struct VoteCommentForm {
    pub add_star_comment: Option<i32>,
    pub rm_star_comment: Option<i32>,
    pub add_flag_comment: Option<i32>,
    pub rm_flag_comment: Option<i32>,
    pub add_hide_comment: Option<i32>,
    pub rm_hide_comment: Option<i32>,
}

impl VoteCommentForm {
    /// The vote that the form asks for: exactly one field must be set, and
    /// flagging or hiding a comment takes trust level 1.
    pub open spec fn action_spec(self, trust_level: i32) -> Option<(CommentVote, i32)> {
        match (
            self.add_star_comment,
            self.rm_star_comment,
            self.add_flag_comment,
            self.rm_flag_comment,
            self.add_hide_comment,
            self.rm_hide_comment,
        ) {
            (Some(i), None, None, None, None, None) => Some((CommentVote::AddStar, i)),
            (None, Some(i), None, None, None, None) => Some((CommentVote::RmStar, i)),
            (None, None, Some(i), None, None, None) => if trust_level >= 1 {
                Some((CommentVote::AddFlag, i))
            } else {
                None
            },
            (None, None, None, Some(i), None, None) => Some((CommentVote::RmFlag, i)),
            (None, None, None, None, Some(i), None) => if trust_level >= 1 {
                Some((CommentVote::AddHide, i))
            } else {
                None
            },
            (None, None, None, None, None, Some(i)) => Some((CommentVote::RmHide, i)),
            _ => None,
        }
    }

    /// The vote that the form asks for a user of this trust level; `None`
    /// (a bad request) otherwise.
    pub fn action(&self, trust_level: i32) -> (r: Option<(CommentVote, i32)>)
        ensures
            r == self.action_spec(trust_level),
    {
        match (
            self.add_star_comment,
            self.rm_star_comment,
            self.add_flag_comment,
            self.rm_flag_comment,
            self.add_hide_comment,
            self.rm_hide_comment,
        ) {
            (Some(i), None, None, None, None, None) => Some((CommentVote::AddStar, i)),
            (None, Some(i), None, None, None, None) => Some((CommentVote::RmStar, i)),
            (None, None, Some(i), None, None, None) => if trust_level >= 1 {
                Some((CommentVote::AddFlag, i))
            } else {
                None
            },
            (None, None, None, Some(i), None, None) => Some((CommentVote::RmFlag, i)),
            (None, None, None, None, Some(i), None) => if trust_level >= 1 {
                Some((CommentVote::AddHide, i))
            } else {
                None
            },
            (None, None, None, None, None, Some(i)) => Some((CommentVote::RmHide, i)),
            _ => None,
        }
    }
}

/// The age, in seconds, that an account must pass before a vote can
/// promote it.
pub const PROMOTION_AGE_SECONDS: i64 = 86400;

/// Whether a successful vote promotes its user to trust level 1: a user at
/// level 0 whose account is more than a day old and who has received a
/// star.
pub fn promotes_user(trust_level: i32, account_age_seconds: i64, has_received_a_star: bool) -> (r:
    bool)
    ensures
        r == (trust_level == 0 && account_age_seconds > 86400 && has_received_a_star),
{
    trust_level == 0 && account_age_seconds > PROMOTION_AGE_SECONDS && has_received_a_star
}

} // verus!

verus! {

/// The number of flags that hides a post or a comment.
pub const FLAG_INVISIBLE_THRESHOLD: i64 = 3;

/// Whether the flag just counted hides the post or comment: the third flag
/// does.
pub fn flag_hides(flag_count: i64) -> (r: bool)
    ensures
        r == (flag_count == 3),
{
    flag_count == FLAG_INVISIBLE_THRESHOLD
}

} // verus!

verus! {

/// What a top-level path of the site shows.
pub enum PathRoute {
    /// `@name`: a user's profile.
    Profile(String),
    /// `+id`: the posts similar to a post (for logged-in users).
    Similar(Base32),
    /// `id`: a post, or the signup page of an invitation.
    Post(Base32),
    NotFound,
}

/// What a top-level path shows (see [`route_path`]).
pub open spec fn route_spec(p: Seq<char>, logged_in: bool) -> (Option<Seq<char>>, Option<(bool, Option<nat>)>) {
    if p.len() > 0 && p[0] == '@' {
        (Some(p.drop_first()), None)
    } else if p.len() > 0 && p[0] == '+' && logged_in {
        (None, Some((true, value_of(p.drop_first()))))
    } else {
        (None, Some((false, value_of(p))))
    }
}

/// What a top-level path of the site shows: a profile for `@name`, the
/// similar posts for `+id` when logged in, otherwise the post (or
/// invitation) with that id; an id that does not parse is not found.
pub fn route_path(p: &str, logged_in: bool) -> (r: PathRoute)
    ensures
        match route_spec(p@, logged_in) {
            (Some(name), _) => r matches PathRoute::Profile(n) && n@ == name,
            (None, Some((similar, v))) => match v {
                None => r is NotFound,
                Some(v) => if similar {
                    r matches PathRoute::Similar(b) && b@ == (v % 0x1_0000_0000_0000_0000) as u64
                } else {
                    r matches PathRoute::Post(b) && b@ == (v % 0x1_0000_0000_0000_0000) as u64
                },
            },
            _ => false,
        },
{
    let cs = chars_of(p);
    if cs.len() > 0 && cs[0] == '@' {
        let name = char_range(p, 1, cs.len());
        assert(p@.subrange(1, p@.len() as int) =~= p@.drop_first());
        return PathRoute::Profile(name);
    }
    if cs.len() > 0 && cs[0] == '+' && logged_in {
        let rest = char_range(p, 1, cs.len());
        assert(p@.subrange(1, p@.len() as int) =~= p@.drop_first());
        return match Base32::parse(rest.as_str()) {
            Ok(b) => PathRoute::Similar(b),
            Err(_) => PathRoute::NotFound,
        };
    }
    match Base32::parse(p) {
        Ok(b) => PathRoute::Post(b),
        Err(_) => PathRoute::NotFound,
    }
}

/// Whether a new comment is visible: comments of users above trust level 0
/// are, and so are all comments on private posts.
pub fn comment_visible(trust_level: i32, post_private: bool) -> (r: bool)
    ensures
        r == (trust_level > 0 || post_private),
{
    trust_level > 0 || post_private
}

/// Whether a post page is private (private, or not yet visible) and
/// whether it is kept out of search engines.
pub fn post_page_privacy(private: bool, visible: bool, noindex: bool) -> (r: (bool, bool))
    ensures
        r.0 == (private || !visible),
        r.1 == (private || !visible || noindex),
{
    let is_private = private || !visible;
    (is_private, is_private || noindex)
}

} // verus!
