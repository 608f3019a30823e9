//! The values that the site's pages are rendered from, and the filters the
//! page templates apply.
use vstd::prelude::*;
use crate::text::{chars_of, push_char, push_str};
use crate::customization::Customization;

verus! {

/// `template` with every `{}`, from left to right, replaced by `subst`.
pub open spec fn replace_braces(template: Seq<char>, subst: Seq<char>) -> Seq<char>
    decreases template.len(),
{
    if template.len() == 0 {
        seq![]
    } else if template.len() >= 2 && template[0] == '{' && template[1] == '}' {
        subst + replace_braces(template.skip(2), subst)
    } else {
        seq![template[0]] + replace_braces(template.drop_first(), subst)
    }
}

/// Replaces every `{}` in `template` with `subst`.
pub fn replace(template: &str, subst: &str) -> (r: String)
    ensures
        r@ == replace_braces(template@, subst@),
{
    let cs = chars_of(template);
    let mut out = String::new();
    let mut i: usize = 0;
    assert(cs@.skip(0) =~= cs@);
    assert(out@ + replace_braces(cs@, subst@) =~= replace_braces(cs@, subst@));
    while i < cs.len()
        invariant
            cs@ == template@,
            i <= cs@.len(),
            replace_braces(cs@, subst@) == out@ + replace_braces(cs@.skip(i as int), subst@),
        decreases cs.len() - i,
    {
        let ghost rest = cs@.skip(i as int);
        let ghost prev = out@;
        if i + 1 < cs.len() && cs[i] == '{' && cs[i + 1] == '}' {
            assert(rest.skip(2) =~= cs@.skip(i + 2));
            assert(rest[0] == '{' && rest[1] == '}');
            push_str(&mut out, subst);
            i += 2;
            assert(prev + replace_braces(rest, subst@) =~= out@ + replace_braces(
                cs@.skip(i as int),
                subst@,
            ));
        } else {
            assert(rest.drop_first() =~= cs@.skip(i + 1));
            assert(rest[0] == cs@[i as int]);
            push_char(&mut out, cs[i]);
            i += 1;
            assert(prev + replace_braces(rest, subst@) =~= out@ + replace_braces(
                cs@.skip(i as int),
                subst@,
            ));
        }
    }
    assert(replace_braces(cs@.skip(cs@.len() as int), subst@) =~= Seq::<char>::empty());
    assert(out@ + Seq::<char>::empty() =~= out@);
    out
}

/// The span of time that a list of top posts covers.
#[derive(Clone, Copy, Debug, PartialEq, Eq, Structural)]
pub enum Timespan {
    Day,
    Week,
    Month,
    Year,
    All,
}

/// The list of users who starred a post.
pub struct ViewStar {
    pub starred_by: Vec<String>,
    pub blog_post: bool,
    pub customization: Customization,
}

/// The list of users who starred a comment.
pub struct ViewStarComment {
    pub starred_by: Vec<String>,
    pub customization: Customization,
}

/// The page of the main navigation that is shown.
#[derive(Clone, Copy, Debug, PartialEq, Eq, Structural)]
pub enum NavPageId {
    Home,
    Latest,
    Top,
    New,
    Random,
}

impl NavPageId {
    /// The number that identifies the page in rendered data.
    pub open spec fn number_spec(self) -> i32 {
        match self {
            NavPageId::Home => 1,
            NavPageId::Latest => 2,
            NavPageId::Top => 3,
            NavPageId::New => 4,
            NavPageId::Random => 5,
        }
    }

    /// The number that identifies the page in rendered data.
    pub fn number(self) -> (n: i32)
        ensures
            n == self.number_spec(),
    {
        match self {
            NavPageId::Home => 1,
            NavPageId::Latest => 2,
            NavPageId::Top => 3,
            NavPageId::New => 4,
            NavPageId::Random => 5,
        }
    }

    /// The page's relative URL.
    pub open spec fn path(self) -> Seq<char> {
        match self {
            NavPageId::Home => "."@,
            NavPageId::Latest => "latest"@,
            NavPageId::Top => "top"@,
            NavPageId::New => "new"@,
            NavPageId::Random => "random"@,
        }
    }

    /// The page's relative URL.
    pub fn to_string(&self) -> (s: String)
        ensures
            s@ == self.path(),
    {
        match *self {
            NavPageId::Home => ".".to_string(),
            NavPageId::Latest => "latest".to_string(),
            NavPageId::Top => "top".to_string(),
            NavPageId::New => "new".to_string(),
            NavPageId::Random => "random".to_string(),
        }
    }
}

impl Default for NavPageId {
    fn default() -> (r: NavPageId)
        ensures
            r == NavPageId::Home,
    {
        NavPageId::Home
    }
}

/// The page of the administration area that is shown.
#[derive(Clone, Copy, Debug, PartialEq, Eq, Structural)]
pub enum AdminPageId {
    Tags,
    Domains,
    Customization,
    Flags,
    CommentFlags,
    Users,
    BlockedRegexes,
}

impl AdminPageId {
    /// The number that identifies the page in rendered data.
    pub open spec fn number_spec(self) -> i32 {
        match self {
            AdminPageId::Tags => 1,
            AdminPageId::Domains => 2,
            AdminPageId::Customization => 3,
            AdminPageId::Flags => 4,
            AdminPageId::CommentFlags => 5,
            AdminPageId::Users => 6,
            AdminPageId::BlockedRegexes => 7,
        }
    }

    /// The number that identifies the page in rendered data.
    pub fn number(self) -> (n: i32)
        ensures
            n == self.number_spec(),
    {
        match self {
            AdminPageId::Tags => 1,
            AdminPageId::Domains => 2,
            AdminPageId::Customization => 3,
            AdminPageId::Flags => 4,
            AdminPageId::CommentFlags => 5,
            AdminPageId::Users => 6,
            AdminPageId::BlockedRegexes => 7,
        }
    }
}

impl Default for AdminPageId {
    fn default() -> (r: AdminPageId)
        ensures
            r == AdminPageId::Tags,
    {
        AdminPageId::Tags
    }
}

} // verus!
