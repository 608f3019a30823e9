//! The rules of accounts: signing up, logging in, messages and comments.
use vstd::prelude::*;
use crate::search::{split_spec, Separator};
use crate::submit::{nonempty, split_nonempty};
use crate::text::same_text;

verus! {

/// Whether a name may be taken at signup: not empty, and not the name of
/// the account that anonymous posts go to.
pub fn username_allowed(name: &str) -> (r: bool)
    ensures
        r == (name@.len() > 0 && name@ != "anonymous"@),
{
    name.unicode_len() > 0 && !same_text(name, "anonymous")
}

/// How a signup may go on.
#[derive(Clone, Copy, Debug, PartialEq, Eq, Structural)]
pub enum SignupGate {
    /// The invitation must be used up first.
    UseInvite,
    /// Anyone may sign up.
    Public,
    /// Signups need an invitation.
    Refused,
}

/// How a signup may go on: with an invitation it is used, without one only
/// when public signup is on.
pub fn signup_gate(has_invite: bool, public_signup: bool) -> (r: SignupGate)
    ensures
        r == (if has_invite {
            SignupGate::UseInvite
        } else if public_signup {
            SignupGate::Public
        } else {
            SignupGate::Refused
        }),
{
    if has_invite {
        SignupGate::UseInvite
    } else if public_signup {
        SignupGate::Public
    } else {
        SignupGate::Refused
    }
}

/// The trust level that a new account is set to, if any: -2 when the
/// browser has the ban cookie; otherwise, when it remembers another user,
/// -2 if that user is banned or at -2; otherwise 1 when the inviter is at
/// trust level 2 or more.
pub open spec fn new_account_trust_spec(
    ban_cookie: bool,
    name_cookie: bool,
    other_user: Option<(bool, i32)>,
    inviter_trust: Option<i32>,
) -> Option<i32> {
    if ban_cookie {
        Some(-2i32)
    } else if name_cookie {
        match other_user {
            Some((banned, trust)) => if banned || trust <= -2 {
                Some(-2i32)
            } else {
                None
            },
            None => None,
        }
    } else {
        match inviter_trust {
            Some(t) => if t >= 2 {
                Some(1i32)
            } else {
                None
            },
            None => None,
        }
    }
}

/// The trust level that a new account is set to (see
/// [`new_account_trust_spec`]). `other_user` is the remembered user's ban and
/// trust level when the name cookie names one.
pub fn new_account_trust(
    ban_cookie: bool,
    name_cookie: bool,
    other_user: Option<(bool, i32)>,
    inviter_trust: Option<i32>,
) -> (r: Option<i32>)
    ensures
        r == new_account_trust_spec(ban_cookie, name_cookie, other_user, inviter_trust),
{
    if ban_cookie {
        Some(-2)
    } else if name_cookie {
        match other_user {
            Some((banned, trust)) => if banned || trust <= -2 {
                Some(-2)
            } else {
                None
            },
            None => None,
        }
    } else {
        match inviter_trust {
            Some(t) => if t >= 2 {
                Some(1)
            } else {
                None
            },
            None => None,
        }
    }
}

/// What a login with the right password does: users at trust level -2 and
/// banned users get the ban cookie, and banned users are not let in.
/// Returns whether to set the ban cookie and whether to let the user in.
pub fn login_outcome(trust_level: i32, banned: bool) -> (r: (bool, bool))
    ensures
        r == (trust_level == -2 || banned, !banned),
{
    (trust_level == -2 || banned, !banned)
}

/// Why a private message cannot be sent.
#[derive(Clone, Copy, Debug, PartialEq, Eq, Structural)]
pub enum MessageRefusal {
    /// Messages take trust level 2 (the page is answered as not found).
    NotTrusted,
    Banned,
}

/// Whether a user may send a private message.
pub fn may_send_message(trust_level: i32, banned: bool) -> (r: Result<(), MessageRefusal>)
    ensures
        r == (if trust_level < 2 {
            Err(MessageRefusal::NotTrusted)
        } else if banned {
            Err(MessageRefusal::Banned)
        } else {
            Ok(())
        }),
{
    if trust_level < 2 {
        Err(MessageRefusal::NotTrusted)
    } else if banned {
        Err(MessageRefusal::Banned)
    } else {
        Ok(())
    }
}

/// The usernames that a private message goes to: the list split at commas
/// and spaces, without empty names.
pub fn message_recipients(users: &str) -> (r: Vec<String>)
    ensures
        r.deep_view() == nonempty(split_spec(users@, Separator::CommaOrSpace)),
{
    split_nonempty(users, Separator::CommaOrSpace)
}

/// The users that a new comment notifies: the post's subscribers but its
/// author, in order.
pub open spec fn notified(subscribers: Seq<i32>, author: i32) -> Seq<i32> {
    subscribers.filter(|u: i32| u != author)
}

/// The users that a new comment notifies (see [`notified`]).
pub fn notification_recipients(subscribers: &Vec<i32>, author: i32) -> (r: Vec<i32>)
    ensures
        r@ == notified(subscribers@, author),
{
    let mut out: Vec<i32> = Vec::new();
    let mut i: usize = 0;
    while i < subscribers.len()
        invariant
            i <= subscribers@.len(),
            out@ == notified(subscribers@.take(i as int), author),
        decreases subscribers.len() - i,
    {
        let u = subscribers[i];
        proof {
            let t = subscribers@.take(i + 1);
            assert(t.drop_last() =~= subscribers@.take(i as int));
            assert(t.last() == u);
            reveal(Seq::filter);
        }
        if u != author {
            out.push(u);
        }
        i += 1;
    }
    assert(subscribers@.take(subscribers@.len() as int) =~= subscribers@);
    out
}

/// The message shown after a comment is posted: visible at once, or after
/// a moderator's look.
pub fn comment_posted_message(visible: bool) -> (r: &'static str)
    ensures
        r@ == (if visible {
            "Your comment has been posted"@
        } else {
            "Your comment will be posted after a mod gets a chance to look at it"@
        }),
{
    if visible {
        "Your comment has been posted"
    } else {
        "Your comment will be posted after a mod gets a chance to look at it"
    }
}

/// Whether a new password may be set: it must not be empty.
pub fn new_password_allowed(password: &str) -> (r: bool)
    ensures
        r == (password@.len() > 0),
{
    password.unicode_len() > 0
}

} // verus!
