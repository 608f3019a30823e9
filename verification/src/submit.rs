//! Reading a submitted post: its tags, its link, and who may post it.
use vstd::prelude::*;
use crate::search::{split_spec, split_text, split_trimmed, trimmed_nonempty, Separator};
use crate::text::{chars_of, push_str};
use crate::posts::CreatePostError;

verus! {

/// The non-empty pieces of a list of names.
pub open spec fn nonempty(pieces: Seq<Seq<char>>) -> Seq<Seq<char>>
    decreases pieces.len(),
{
    if pieces.len() == 0 {
        seq![]
    } else {
        nonempty(pieces.drop_last()) + if pieces.last().len() == 0 {
            Seq::<Seq<char>>::empty()
        } else {
            seq![pieces.last()]
        }
    }
}

/// The non-empty pieces of `s` between separators.
pub fn split_nonempty(s: &str, k: Separator) -> (r: Vec<String>)
    ensures
        r.deep_view() == nonempty(split_spec(s@, k)),
{
    let pieces = split_text(s, k);
    let ghost ps = pieces.deep_view();
    let mut out: Vec<String> = Vec::new();
    let mut i: usize = 0;
    while i < pieces.len()
        invariant
            ps == pieces.deep_view(),
            i <= pieces@.len(),
            out.deep_view() == nonempty(ps.take(i as int)),
        decreases pieces.len() - i,
    {
        assert(ps[i as int] == pieces@[i as int]@);
        if pieces[i].as_str().unicode_len() > 0 {
            let mut t = String::new();
            push_str(&mut t, pieces[i].as_str());
            out.push(t);
        }
        assert(ps.take(i + 1).drop_last() =~= ps.take(i as int));
        assert(out.deep_view() =~= nonempty(ps.take(i + 1)));
        i += 1;
    }
    assert(ps.take(ps.len() as int) =~= ps);
    out
}

/// The tag names of a post's tag field: the text between runs of `#`, `,`,
/// spaces and tabs.
pub fn split_tag_field(tags: &str) -> (r: Vec<String>)
    ensures
        r.deep_view() == nonempty(split_spec(tags@, Separator::TagList)),
{
    split_nonempty(tags, Separator::TagList)
}

/// A title with ` #tag` appended for each tag.
pub open spec fn title_with_tags_spec(title: Seq<char>, tags: Seq<Seq<char>>) -> Seq<char>
    decreases tags.len(),
{
    if tags.len() == 0 {
        title
    } else {
        title_with_tags_spec(title, tags.drop_last()) + " #"@ + tags.last()
    }
}

/// A title with ` #tag` appended for each tag, in order.
pub fn title_with_tags(title: &str, tags: &Vec<String>) -> (r: String)
    ensures
        r@ == title_with_tags_spec(title@, tags.deep_view()),
{
    let mut out = String::new();
    push_str(&mut out, title);
    let ghost dv = tags.deep_view();
    let mut k: usize = 0;
    while k < tags.len()
        invariant
            dv == tags.deep_view(),
            k <= tags@.len(),
            out@ == title_with_tags_spec(title@, dv.take(k as int)),
        decreases tags.len() - k,
    {
        push_str(&mut out, " #");
        push_str(&mut out, tags[k].as_str());
        assert(dv.take(k + 1).drop_last() =~= dv.take(k as int));
        assert(dv[k as int] == tags@[k as int]@);
        k += 1;
    }
    assert(dv.take(dv.len() as int) =~= dv);
    out
}

/// The link of a submitted post: none when the field is empty; `https://`
/// in front when it has no scheme (no `:`) and does not start with `//`.
pub open spec fn normalize_url_spec(u: Seq<char>) -> Option<Seq<char>> {
    if u.len() == 0 {
        None
    } else if !u.contains(':') && !(u.len() >= 2 && u[0] == '/' && u[1] == '/') {
        Some("https://"@ + u)
    } else {
        Some(u)
    }
}

/// The link of a submitted post (see [`normalize_url_spec`]).
pub fn normalize_url(u: &str) -> (r: Option<String>)
    ensures
        match normalize_url_spec(u@) {
            Some(s) => r matches Some(t) && t@ == s,
            None => r is None,
        },
{
    let cs = chars_of(u);
    if cs.len() == 0 {
        return None;
    }
    let mut colon = false;
    let mut i: usize = 0;
    while i < cs.len()
        invariant
            cs@ == u@,
            i <= cs@.len(),
            colon == (exists|j: int| 0 <= j < i && cs@[j] == ':'),
        decreases cs.len() - i,
    {
        if cs[i] == ':' {
            colon = true;
        }
        i += 1;
    }
    assert(colon == u@.contains(':'));
    let slashes = cs.len() >= 2 && cs[0] == '/' && cs[1] == '/';
    let mut out = String::new();
    if !colon && !slashes {
        push_str(&mut out, "https://");
    }
    push_str(&mut out, u);
    Some(out)
}

/// Whether a new post is visible: a link by a user above trust level 0 is;
/// a text post is hidden until a moderator approves it, and takes trust
/// level 1. `None` when the user may not post it.
pub fn initial_visibility(has_url: bool, trust_level: i32) -> (r: Option<bool>)
    ensures
        r == (if has_url {
            Some(trust_level > 0)
        } else if trust_level <= 0 {
            None
        } else {
            Some(false)
        }),
{
    if has_url {
        Some(trust_level > 0)
    } else if trust_level <= 0 {
        None
    } else {
        Some(false)
    }
}

/// Whether posting promotes a user to trust level 2: a user at level 1
/// whose account is more than a week old.
pub fn promotes_to_level_two(trust_level: i32, account_age_seconds: i64) -> (r: bool)
    ensures
        r == (trust_level == 1 && account_age_seconds > 604800),
{
    trust_level == 1 && account_age_seconds > 604800
}

/// The message shown when a post cannot be created.
pub open spec fn create_post_message(e: CreatePostError) -> Seq<char> {
    match e {
        CreatePostError::TooLong => "Too long; please find a shorter excerpt"@,
        CreatePostError::TooManyPosts => "You have exceeded the post limit for today; try again tomorrow"@,
        CreatePostError::TooManyPostsDomain => "This domain name has exceeded the post limit for today; try submitting quotes from somewhere else"@,
        CreatePostError::TooManyPostsDomainUser => "You have submitted too many posts from this particular domain; try submitting quotes from somewhere else"@,
        CreatePostError::RequireTag => "Please specify at least one tag"@,
    }
}

/// The message shown when a post cannot be created.
pub fn create_post_error_message(e: CreatePostError) -> (r: &'static str)
    ensures
        r@ == create_post_message(e),
{
    match e {
        CreatePostError::TooLong => "Too long; please find a shorter excerpt",
        CreatePostError::TooManyPosts => "You have exceeded the post limit for today; try again tomorrow",
        CreatePostError::TooManyPostsDomain => "This domain name has exceeded the post limit for today; try submitting quotes from somewhere else",
        CreatePostError::TooManyPostsDomainUser => "You have submitted too many posts from this particular domain; try submitting quotes from somewhere else",
        CreatePostError::RequireTag => "Please specify at least one tag",
    }
}

/// The choices of a new poll: one per line, trimmed, without empty lines.
pub fn poll_choices(text: &str) -> (r: Vec<String>)
    ensures
        r.deep_view() == trimmed_nonempty(split_spec(text@, Separator::Newline)),
{
    split_trimmed(text, Separator::Newline)
}

/// Why a comment cannot be created.
#[derive(Clone, Copy, Debug, PartialEq, Eq, Structural)]
pub enum CreateCommentError {
    TooManyComments,
}

/// Whether a user may comment again today: up to 100000 comments a day.
pub fn check_comment_rate(comments_today: i32) -> (r: Result<(), CreateCommentError>)
    ensures
        r == (if comments_today > 100_000 {
            Err(CreateCommentError::TooManyComments)
        } else {
            Ok(())
        }),
{
    if comments_today > 100_000 {
        Err(CreateCommentError::TooManyComments)
    } else {
        Ok(())
    }
}

/// The pieces joined together.
pub open spec fn concat(pieces: Seq<Seq<char>>) -> Seq<char>
    decreases pieces.len(),
{
    if pieces.len() == 0 {
        seq![]
    } else {
        concat(pieces.drop_last()) + pieces.last()
    }
}

/// A title split at its first `#`: the text before, and the rest with its
/// `#`s removed (the title and the tags of a post shown for editing).
pub open spec fn split_title_spec(title: Seq<char>) -> (Seq<char>, Seq<char>) {
    let parts = split_spec(title, Separator::Hash);
    (parts[0], concat(parts.drop_first()))
}

/// A title split at its first `#` (see [`split_title_spec`]).
pub fn split_title(title: &str) -> (r: (String, String))
    ensures
        (r.0@, r.1@) == split_title_spec(title@),
{
    let parts = split_text(title, Separator::Hash);
    let ghost ps = parts.deep_view();
    proof {
        crate::search::lemma_split_nonempty(title@, Separator::Hash);
    }
    let mut first = String::new();
    push_str(&mut first, parts[0].as_str());
    let mut rest = String::new();
    let mut k: usize = 1;
    assert(ps.drop_first().take(0) =~= Seq::<Seq<char>>::empty());
    while k < parts.len()
        invariant
            ps == parts.deep_view(),
            1 <= k <= parts@.len(),
            rest@ == concat(ps.drop_first().take(k - 1)),
        decreases parts.len() - k,
    {
        push_str(&mut rest, parts[k].as_str());
        assert(ps.drop_first().take(k as int).drop_last() =~= ps.drop_first().take(k - 1));
        assert(ps[k as int] == parts@[k as int]@);
        k += 1;
    }
    assert(ps.drop_first().take(ps.len() - 1) =~= ps.drop_first());
    (first, rest)
}

} // verus!
